[package]
name = "duck_chess"
version = "0.1.0"
edition = "2021"
publish = false

[dependencies]
bson = "2"
rand = "0.8"
serde = { version = "1", features = ["derive"] }
serde_json = "1"
