[package]
name = "tensor_shards"
version = "0.1.0"
edition = "2021"
publish = false

[dependencies]
bincode = "1.3"
candle-core = "*"
candle-nn = "*"
parking_lot = "0.12"
serde = { version = "1", features = ["derive"] }
serde_json = "1"
tracing = "0.1"
