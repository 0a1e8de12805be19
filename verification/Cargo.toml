[package]
name = "system_agent"
version = "0.1.0"
edition = "2021"
publish = false

[dependencies]
serde_json = "1"
serde_yaml = "0.9"
serde = { version = "1", features = ["derive"] }
anyhow = "1"
log = "0.4"
env_logger = "*"
clap = { version = "4", features = ["derive"] }
tokio = { version = "1", features = ["full"] }
reqwest = { version = "*", default-features = false, features = ["json"] }
chrono = "0.4"
uuid = { version = "1", features = ["v4"] }
hostname = "*"
bollard = "*"
regex = "1"
axum = "*"
tracing-subscriber = "*"
