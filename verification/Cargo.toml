[package]
name = "plctag"
version = "0.4.0"
edition = "2021"
publish = false

[dependencies]
log = "0.4"
tokio = { version = "=1.54.1", default-features = false, features = ["rt", "sync", "time"] }
