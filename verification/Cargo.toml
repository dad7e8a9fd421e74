[package]
name = "terrashift"
version = "0.1.0"
edition = "2021"
publish = false

[dependencies]
hcl-rs = "0.18"
sha2 = "0.10"
similar = "2"
uuid = { version = "1", features = ["v4"] }
serde = { version = "1", features = ["derive"] }
serde_json = "1"
toml = "0.8"
walkdir = "2"
tokio = { version = "1", features = ["full"] }
tokio-util = "0.7"
async-trait = "0.1"
tracing = "0.1"
thiserror = "2"
tempfile = "3"

[dev-dependencies]
