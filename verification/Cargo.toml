[package]
name = "prometheus_sd"
version = "0.1.0"
edition = "2021"
publish = false

[dependencies]
redis = "0.21"
backoff = "0.4"
clap = { version = "3", features = ["env", "cargo"] }
custom_error = "1.9"
env_logger = "0.9"
log = "0.4"
serde = { version = "1", features = ["derive"] }
serde_json = "1"
