use vstd::prelude::*;

verus! {

/// Error taxonomy of the service manager.  Every public operation returns
/// either its success payload or one of these, carrying the service name or
/// the underlying cause as text.
#[derive(Debug, Clone, PartialEq, Eq)]
pub enum ServicingError {
    /// A failure that fits no other kind.
    General(String),
    /// The named service is not in the registry.
    NotFound(String),
    /// An `add` found the name already registered.
    AlreadyExists(String),
    /// A `remove` found the service still up.
    StillRunning(String),
    /// A `remove` found the service launching (endpoint set, not yet up).
    Launching(String),
    /// A teardown was asked of a service that is neither up nor launching.
    NotUp(String),
    /// An endpoint was asked of a service that has none.
    ServiceDown(String),
    /// A launch was asked of a service that is already launching or up.
    AlreadyRunning(String),
    /// The orchestrator's "serve up" invocation exited with failure.
    ProvisionFailed(String),
    /// The orchestrator's "serve down" invocation exited with failure.
    TeardownFailed(String),
    /// No `ip:port` token was found in the orchestrator's status output.
    EndpointNotFound(String),
    /// A readiness probe or other network transfer failed.
    Network(String),
    /// Encoding or decoding a persisted registry failed.
    Serialization(String),
    /// A file or directory operation failed.
    IO(String),
    /// The registry lock was poisoned by a panicking task.
    Lock(String),
    /// A required external tool is missing.
    Config(String),
}

} // verus!
