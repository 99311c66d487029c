[package]
name = "loopback_auth"
version = "0.1.0"
edition = "2021"
publish = false

[dependencies]
tokio = { version = "1", features = ["sync", "time", "rt"] }
hyper = { version = "0.14", features = ["server", "http1", "tcp"] }
webbrowser = "1"
lazy_static = "1"
serde = { version = "1", features = ["derive"] }
