[package]
name = "mini_mud"
version = "0.1.0"
edition = "2021"
publish = false

[dependencies]
anyhow = "1"
indexmap = "2"
serde = { version = "1", features = ["derive"] }
serde_json = "1"
