[package]
name = "rustymedia"
version = "0.1.0"
edition = "2021"
publish = false

[dependencies]
percent-encoding = "*"
regex = "*"
serde = { version = "*", features = ["derive"] }
serde_json = "*"
serde-xml-rs = "*"
