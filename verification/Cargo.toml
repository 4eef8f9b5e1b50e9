[package]
name = "uvxl"
version = "0.1.0"
edition = "2021"
publish = false

[dependencies]
anyhow = "1"
dashmap = "*"
futures-channel = "0.3"
futures-util = { version = "0.3", features = ["sink"] }
glam = "*"
log = "0.4"
pretty_env_logger = "*"
tokio = { version = "1", features = ["rt-multi-thread", "net", "io-util", "macros"] }
tokio-tungstenite = "*"
tokio-util = { version = "0.7", features = ["codec"] }
uuid = { version = "1", features = ["v4"] }

[dev-dependencies]
bincode = "1.3.3"
