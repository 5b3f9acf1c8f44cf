[package]
name = "msg_transmitter"
version = "0.1.0"
edition = "2021"
publish = false

[dependencies]
bytes = "0.4"
bincode = "1"
serde = { version = "1", features = ["derive"] }
tokio = "0.1"
tokio-codec = "0.1"
futures = "0.1"
