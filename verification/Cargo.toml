[package]
name = "api_locks"
version = "0.1.0"
edition = "2021"
publish = false

[dependencies]
clashmap = { version = "1", features = ["raw-api"] }
thiserror = "1"
tokio = { version = "1", features = ["rt", "sync", "time"] }
tracing = "0.1"
