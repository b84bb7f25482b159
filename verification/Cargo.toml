[package]
name = "socketio_core"
version = "0.1.0"
edition = "2021"
publish = false

[dependencies]
rust_engineio = { version = "*", features = ["async"] }
bytes = "*"
futures-util = "*"
async-stream = "*"
