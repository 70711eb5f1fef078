[package]
name = "yarn"
version = "0.1.0"
edition = "2021"
publish = false

[dependencies]
bincode = "0.9"
brotli2 = "0.3"
serde = { version = "1", features = ["derive"] }
serde_derive = "1"
