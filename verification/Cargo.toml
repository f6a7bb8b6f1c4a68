[package]
name = "execution-policy"
version = "0.0.6"
edition = "2021"
publish = false

[dependencies]
tokio = { version = "1", features = ["time"] }
tracing = "0.1"
