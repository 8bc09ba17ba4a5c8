[package]
name = "hyper-reverse-proxy"
version = "0.1.0"
edition = "2021"
publish = false

[dependencies]
hyper = { version = "1", features = ["client", "http1", "server"] }
hyper-util = { version = "0.1", features = ["client", "client-legacy", "http1", "tokio"] }
tokio = { version = "1", features = ["io-util", "net", "rt"] }
tracing = "0.1"
