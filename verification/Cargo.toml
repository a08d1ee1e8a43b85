[package]
name = "ckc"
version = "0.1.0"
edition = "2021"
publish = false

[dependencies]
sha1 = "0.10"
statrs = "0.17"
serde = { version = "1", features = ["derive"] }
serde_json = "1"
