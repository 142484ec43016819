[package]
name = "fruently"
version = "0.1.0"
edition = "2021"
publish = false

[dependencies]
time = "*"
serde = "*"
serde_json = "*"

[dev-dependencies]
rmp-serde = "*"
