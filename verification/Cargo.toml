[package]
name = "tortoise"
version = "0.1.0"
edition = "2021"
publish = false

[dependencies]
chrono = { version = "0.4", features = ["serde"] }
dirs = "*"
ndarray = "*"
ndarray-rand = "*"
serde = { version = "1", features = ["derive"] }
serde_json = "1"
serde_yaml = "*"
