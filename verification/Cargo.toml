[package]
name = "ordinals"
version = "0.1.0"
edition = "2021"
publish = false

[dependencies]
bellscoin = "*"
brotli = "*"
serde = { version = "1", features = ["derive"] }
serde_json = "1"
