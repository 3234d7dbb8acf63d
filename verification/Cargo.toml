[package]
name = "ws_kit"
version = "0.4.2"
edition = "2021"
publish = false

[dependencies]
bytes = "1"
dashmap = "6"
flate2 = "1"
futures-util = "0.3"
http = "1"
metrics = "*"
redis = { version = "*", features = ["tokio-comp"] }
serde = { version = "1", features = ["derive"] }
serde_json = "1"
thiserror = "2"
tokio = { version = "1", features = ["sync", "rt", "time"] }
