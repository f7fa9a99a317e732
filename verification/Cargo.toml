[package]
name = "grimoire"
version = "0.1.0"
edition = "2021"
publish = false

[dependencies]
aes-gcm = "=0.10.3"
argon2 = "=0.5.3"
rand = "=0.8.8"
base64 = "=0.22.1"
zeroize = "=1.9.1"
roxmltree = "=0.20.0"
scraper = "=0.20.0"
ego-tree = "=0.6.3"
serde = { version = "=1.0.229", features = ["derive"] }
serde_json = "=1.0.154"
