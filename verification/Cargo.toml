[package]
name = "econ_bridge"
version = "0.1.0"
edition = "2021"
publish = false

[dependencies]
anyhow = "1"
async-nats = "=0.50.0"
bytes = "1"
chrono = "=0.4.45"
clap = { version = "4", features = ["derive"] }
cron = "=0.17.0"
env_logger = "*"
futures-util = "0.3"
log = "0.4"
rand = "=0.8.8"
regex = "=1.13.1"
serde = { version = "1", features = ["derive"] }
serde_json = "1"
serde_yaml = "=0.9.34"
signal-hook = "0.3"
tokio = { version = "1", features = ["full"] }
