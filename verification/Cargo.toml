[package]
name = "foxglove-websocket-rs"
version = "0.1.0"
edition = "2021"
publish = false

[dependencies]
serde = { version = "1", features = ["derive"] }
serde_json = "1"
tokio = { version = "1", features = ["rt-multi-thread", "macros", "net", "sync", "time"] }
tokio-tungstenite = "0.21"
futures-util = "0.3"
async-trait = "0.1"
log = "0.4"
