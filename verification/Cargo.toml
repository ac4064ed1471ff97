[package]
name = "glove_host"
version = "0.1.0"
edition = "2021"
publish = false

[dependencies]
serde = { version = "1", features = ["derive"] }
serialport = { version = "4", default-features = false }
tokio = { version = "1", features = ["rt", "time"] }
