[package]
name = "relay_adapter"
version = "0.1.0"
edition = "2021"
publish = false

[dependencies]
serde_json = "1"
tokio = { version = "1", features = ["rt-multi-thread", "macros", "sync", "time", "net"] }
tokio-tungstenite = "*"
tokio-stream = "*"
futures-util = "0.3"
url = "2"
async-trait = "0.1"
log = "0.4"
