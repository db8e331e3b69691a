[package]
name = "shellie"
version = "0.1.0"
edition = "2021"
publish = false

[dependencies]
bevy = { version = "0.17", default-features = false }
dirs = "*"
serde = { version = "1", features = ["derive"] }
serde_json = "1"
tracing = "0.1"
