[package]
name = "resolver"
version = "0.1.0"
edition = "2021"
publish = false

[dependencies]
tokio = { version = "1", features = ["rt", "rt-multi-thread"] }
hyper-util = { version = "0.1", features = ["client-legacy"] }
tower-service = "0.3"
