[package]
name = "codecrafters-kafka"
version = "0.1.0"
edition = "2021"
publish = false

[dependencies]
bytes = "1"
lazy_static = "1"
tokio = { version = "1", features = ["net", "io-util", "rt-multi-thread", "macros"] }
tracing = "0.1"
tracing-subscriber = "0.3"
uuid = "1"
