[package]
name = "obol"
version = "0.1.0"
edition = "2021"
publish = false

[dependencies]
serde = { version = "=1.0.229", features = ["derive"] }
serde_json = "=1.0.154"
clap = { version = "=4.5.61", features = ["derive"] }
anyhow = "=1.0.104"
log = "=0.4.35"
env_logger = "=0.11.11"
which = "*"
rustc_version = "=0.4.1"
rustc-hash = "=2.1.3"
petgraph = "=0.8.3"
