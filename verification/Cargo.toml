[package]
name = "livegrid"
version = "0.1.0"
edition = "2021"
publish = false

[dependencies]
lru = { version = "=0.18.5", default-features = false }
chrono = "*"
axum = { version = "=0.8.9", features = ["ws"] }
tokio = { version = "*", features = ["full"] }
reqwest = { version = "=0.13.5", default-features = false, features = ["json", "query"] }
futures = "*"
tokio-stream = "*"
tokio-util = { version = "*", features = ["codec", "io"] }
tower-http = { version = "*", features = ["cors"] }
env_logger = "*"
log = "*"
serde = { version = "*", features = ["derive"] }
serde_json = "*"
