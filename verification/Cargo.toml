[package]
name = "fswatch"
version = "0.1.0"
edition = "2021"
publish = false

[dependencies]
dunce = "1"
notify = "4"
serde = { version = "1", features = ["derive"] }
serde_json = "1"
