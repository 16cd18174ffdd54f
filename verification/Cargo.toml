[package]
name = "logholizon_core"
version = "0.1.0"
edition = "2021"
publish = false

[dependencies]
anyhow = "=1.0.104"
argon2 = "=0.5.3"
calamine = "*"
clap = { version = "=4.6.7", features = ["derive"] }
hmac = "=0.12.1"
rand = "=0.8.8"
reqwest = { version = "=0.12.28", default-features = false }
rust_xlsxwriter = "*"
serde = { version = "=1.0.229", features = ["derive"] }
serde_json = "=1.0.154"
sha2 = "=0.10.9"
subtle = "=2.6.1"
