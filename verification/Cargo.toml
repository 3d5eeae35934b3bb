[package]
name = "bitburner_oxide"
version = "0.1.0"
edition = "2021"

[dependencies]
anyhow = "*"
base64 = "0.13"
clap = { version = "*", features = ["derive"] }
env_logger = "*"
log = "*"
notify = "*"
serde = { version = "*", features = ["derive"] }
serde_json = "*"
