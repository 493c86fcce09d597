[package]
name = "invoker_manager"
version = "0.1.0"
edition = "2021"
publish = false

[dependencies]
axum = "0.7"
bytes = "1"
env_logger = "0.11"
log = "0.4"
rand = "0.8"
ratchet_deflate = "*"
ratchet_rs = { version = "*", features = ["deflate", "split"] }
serde = { version = "1", features = ["derive"] }
serde_json = "1"
tokio = { version = "1", features = ["full"] }
uuid = "1"
