[package]
name = "yamux"
version = "0.2.0"
edition = "2021"
publish = false

[dependencies]
bytes = "0.5"
futures = "0.3"
futures-timer = "3"
log = "0.4"
tokio = { version = "0.2", features = ["io-util"] }
tokio-util = { version = "0.2", features = ["codec"] }
