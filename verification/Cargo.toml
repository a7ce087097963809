[package]
name = "conn_pool"
version = "0.1.0"
edition = "2021"
publish = false

[dependencies]
pbkdf2 = { version = "0.12", features = ["simple"] }
rand = "0.8"
uuid = { version = "1", features = ["v4"] }
tokio = { version = "1", features = ["rt", "sync", "time", "macros"] }
tokio-postgres = "0.7"
futures = "0.3"
parking_lot = "0.12"
tracing = "0.1"
