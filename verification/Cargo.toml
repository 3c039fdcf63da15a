[package]
name = "image_notify_bot"
version = "0.1.0"
edition = "2021"
publish = false

[dependencies]
poise = "0.5"
dashmap = { version = "5", features = ["serde"] }
serde = { version = "1", features = ["derive"] }
serde_cbor = "0.11"
tokio = { version = "1", features = ["full"] }
async-trait = "0.1"
