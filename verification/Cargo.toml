[package]
name = "servicing"
version = "0.1.0"
edition = "2021"
publish = false

[dependencies]
base64 = "*"
tokio = { version = "*", default-features = false, features = ["rt-multi-thread", "time"] }
reqwest = { version = "*", default-features = false }
serde = { version = "*", features = ["derive"] }
serde_yaml = "*"
dirs = "*"
