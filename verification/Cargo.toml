[package]
name = "dvault"
version = "0.1.0"
edition = "2021"
publish = false

[dependencies]
base64 = "*"
chrono = "*"
crc32fast = "*"
infer = "*"
rand = "*"
serde = { version = "*", features = ["derive"] }
serde_json = "*"
sha2 = "*"
