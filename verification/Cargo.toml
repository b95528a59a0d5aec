[package]
name = "krabka_coordinator"
version = "0.1.0"
edition = "2021"
publish = false

[dependencies]
bytes = "1"
regex = "1"
tokio = { version = "1", features = ["macros", "rt", "sync", "time"] }
tokio-util = { version = "0.7", features = ["rt"] }
tracing = "0.1"
uuid = { version = "1", features = ["v4"] }
