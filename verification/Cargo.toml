[package]
name = "yojo_backend"
version = "0.1.0"
edition = "2021"
publish = false

[dependencies]
num = "0.4"
pad = "0.1"
punycode = "0.4"
regex = "1"
nanoid = "0.4"
rand = "0.9"
chrono = "0.4"
ulid = "1"
sha2 = "0.10"
base64 = "0.22"
uuid = { version = "1", features = ["v4"] }
rsa = { version = "0.9", features = ["sha2"] }
reqwest = { version = "0.12", default-features = false }
serde = { version = "1", features = ["derive"] }
serde_json = "1"
