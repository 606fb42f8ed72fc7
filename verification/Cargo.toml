[package]
name = "rtmp"
version = "0.1.0"
edition = "2021"
publish = false

[dependencies]
tokio = { version = "1", features = ["full"] }
url = "2"
futures = "0.3"
