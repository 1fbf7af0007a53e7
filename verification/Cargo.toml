[package]
name = "claude_pilot"
version = "0.1.0"
edition = "2021"
publish = false

[dependencies]
serde = { version = "1", features = ["derive"] }
serde_json = "1"
serde_yaml_bw = "*"
chrono = { version = "0.4", features = ["serde"] }
nix = { version = "*", features = ["signal", "process"] }
tokio = { version = "1", features = ["fs", "time", "sync", "rt", "macros"] }
tracing = "0.1"
