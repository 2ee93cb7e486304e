[package]
name = "twilia"
version = "0.1.0"
edition = "2021"
publish = false

[dependencies]
anyhow = "1"
base64 = "=0.22.1"
hmac = "=0.12.1"
sha1 = "=0.10.7"
rand = "=0.8.8"
rusqlite = { version = "=0.31.0", features = ["bundled"] }
chrono = "=0.4.45"
serde = { version = "=1.0.229", features = ["derive"] }
serde_json = "=1.0.151"
directories = "=5.0.1"
reqwest = { version = "=0.11.27", default-features = false }
