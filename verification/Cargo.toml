[package]
name = "timeline_sync"
version = "0.1.0"
edition = "2021"
publish = false

[dependencies]
anyhow = "=1.0.104"
bytes = "=1.12.1"
fail = "=0.5.1"
futures = "=0.3.34"
nix = { version = "=0.31.3", features = ["signal", "process"] }
reqwest = { version = "=0.13.5", default-features = false, features = ["blocking", "json"] }
scopeguard = "=1.2.0"
serde = { version = "=1.0.229", features = ["derive"] }
serde_json = "=1.0.151"
tokio = { version = "=1.53.2", features = ["full"] }
tokio-postgres = "=0.7.18"
