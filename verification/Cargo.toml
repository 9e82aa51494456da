[package]
name = "melda_sec"
version = "0.1.0"
edition = "2021"
publish = false

[dependencies]
aes-gcm = "0.10"
anyhow = "1"
base64 = "0.22"
ed25519-dalek = "2"
globset = "0.4"
hex = "0.4"
lazy_static = "1"
melda = "*"
regex = "1"
serde = { version = "1", features = ["derive"] }
serde_json = "1"
serde_yaml = "0.9"
sha2 = "0.10"
