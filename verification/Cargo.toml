[package]
name = "au_framing"
version = "0.1.0"
edition = "2021"
publish = false

[dependencies]
bytes = "*"
h264 = "*"
chrono = "*"
serde = { version = "*", features = ["derive"] }
