[package]
name = "dividends"
version = "0.1.0"
edition = "2021"
publish = false

[dependencies]
csv = "*"
anyhow = "*"
log = "*"
env_logger = "*"
serde = { version = "*", features = ["derive"] }
serde_json = "*"
serde-xml-rs = "*"
