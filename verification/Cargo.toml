[package]
name = "klay"
version = "0.1.0"
edition = "2021"
publish = false

[dependencies]
serde = { version = "*", features = ["derive"] }
toml = "*"
serde-xml-rs = "*"
xml-rs = "*"
