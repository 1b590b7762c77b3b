[package]
name = "webrpc"
version = "0.1.0"
edition = "2021"
publish = false

[dependencies]
tokio = { version = "*", features = ["full"] }
tokio-tungstenite = "*"
futures-util = "*"
discord-sdk = "*"
tracing = "*"
tracing-subscriber = "*"
color-eyre = "*"
