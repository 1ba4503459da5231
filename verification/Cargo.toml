[package]
name = "blockchain"
version = "0.1.0"
edition = "2021"
publish = false

[dependencies]
anyhow = "1"
clap = { version = "4", features = ["derive"] }
env_logger = "*"
glob = "0.3"
log = "0.4"
serde = { version = "1", features = ["derive"] }
serde_json = "1"
