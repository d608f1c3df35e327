[package]
name = "delivery_lib"
version = "0.1.0"
edition = "2021"
publish = false

[dependencies]
csv = "=1.4.0"
uuid = "=1.29.0"
serde = { version = "=1.0.229", features = ["derive"] }
serde_json = "=1.0.154"
config = { version = "0.9", default-features = false, features = ["toml"] }
