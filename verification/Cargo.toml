[package]
name = "frameclient"
version = "0.1.0"
edition = "2021"
publish = false

[dependencies]
bytes = "1"
uuid = { version = "1", features = ["v4"] }
