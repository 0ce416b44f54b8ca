[package]
name = "simple_redis"
version = "0.1.0"
edition = "2021"
publish = false

[dependencies]
bytes = "*"
dashmap = "*"
anyhow = "*"
futures = "*"
tokio = { version = "*", features = ["rt-multi-thread", "net", "macros"] }
tokio-stream = "*"
tokio-util = { version = "*", features = ["codec"] }
tracing = "*"
tracing-subscriber = "*"
