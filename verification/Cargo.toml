[package]
name = "arbitrage_bot"
version = "0.1.0"
edition = "2021"
publish = false

[dependencies]
actix = "*"
anyhow = "*"
env_logger = "*"
futures = "*"
log = "*"
num_cpus = "*"
serde = { version = "*", features = ["derive"] }
serde_json = "*"
tokio = { version = "*", features = ["full"] }
tokio-tungstenite = "*"
url = "*"
