//! Verified core of a service-lifecycle manager.
//!
//! The library registers desired service configurations, drives the
//! `Configured -> Launching -> Up` lifecycle of each service, extracts the
//! assigned endpoint from orchestrator status output, persists the registry
//! as a binary blob (optionally base64-armoured for text channels), and
//! restores it again.  All state transitions, the endpoint scanner, the
//! persistence codec and the registry invariants are verified; the process
//! edges (subprocesses, files, HTTP probes) live outside this crate and talk
//! to it through plain values.

pub mod anymap;
pub mod codec;
pub mod dispatcher;
pub mod endpoint;
pub mod error;
pub mod jsonout;
pub mod models;
pub mod probe;
pub mod registry;
pub mod runlog;
