[package]
name = "get_threads"
version = "0.1.0"
edition = "2021"
publish = false

[dependencies]
chrono = "0.4"
hyper = { version = "0.14", features = ["client", "http1", "http2", "tcp"] }
hyper-tls = "0.5"
log = "0.4"
serde = { version = "1", features = ["derive"] }
serde_json = "1"
simplelog = "0.12"
tokio = { version = "1", features = ["rt", "time", "net"] }
