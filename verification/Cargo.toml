[package]
name = "orderbook"
version = "0.1.0"
edition = "2021"
publish = false

[dependencies]
actix-web = "4"
chrono = "0.4"
config = { version = "0.13", default-features = false, features = ["yaml"] }
env_logger = "0.11"
futures-util = "0.3"
lazy_static = "1"
rand = "0.8"
redis = { version = "0.22", features = ["tokio-comp", "aio"] }
reqwest = { version = "0.11", default-features = false, features = ["json"] }
serde = { version = "1", features = ["derive"] }
serde_json = "1"
tokio = { version = "1", features = ["full"] }
tokio-tungstenite = "0.20"
uuid = { version = "1", features = ["v4"] }
