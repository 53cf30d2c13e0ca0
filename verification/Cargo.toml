[package]
name = "marketdata-service"
version = "0.1.0"
edition = "2021"
publish = false

[dependencies]
dashmap = "6"
tokio = { version = "1", features = ["full"] }
tokio-stream = { version = "0.1", features = ["net"] }
tonic = "0.12"
prost = "0.13"
