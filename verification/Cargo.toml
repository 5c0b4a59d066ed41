[package]
name = "ws_registry"
version = "0.1.0"
edition = "2021"
publish = false

[dependencies]
futures-util = "*"
httparse = "*"
serde = { version = "*", features = ["derive"] }
serde_json = "*"
tokio = { version = "*", features = ["rt-multi-thread", "net", "time", "io-util", "sync", "macros"] }
tokio-tungstenite = "*"
url = "*"
