[package]
name = "remote_viewer_host"
version = "0.1.0"
edition = "2021"
publish = false

[dependencies]
aes-gcm = "=0.10.3"
anyhow = "=1.0.104"
argon2 = "=0.5.3"
image = { version = "0.25", default-features = false, features = ["jpeg"] }
rand = "=0.8.8"
serde = { version = "=1.0.229", features = ["derive"] }
serde_json = "=1.0.154"
windows-capture = "*"
windows-service = "0.8"
