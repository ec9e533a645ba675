[package]
name = "vangers-srv"
version = "0.1.0"
edition = "2021"
publish = false

[dependencies]
tokio = { version = "1", features = ["sync", "net", "io-util", "rt-multi-thread", "macros", "time"] }
rand = "0.8"
thiserror = "1"
tracing = "0.1"
