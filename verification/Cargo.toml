[package]
name = "stego"
version = "0.1.0"
edition = "2021"
publish = false

[dependencies]
aes-gcm = "0.10"
sha2 = "0.10"
rand = "0.8"
image = "0.24"
rusqlite = { version = "0.31", features = ["bundled"] }
