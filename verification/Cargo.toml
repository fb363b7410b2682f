[package]
name = "investments_config"
version = "0.1.0"
edition = "2021"
publish = false

[dependencies]
chrono = "0.4"
rust_decimal = "1"
serde = { version = "1", features = ["derive"] }
serde_yaml = "0.9"
shellexpand = "3"

[dev-dependencies]
regex = "1"
