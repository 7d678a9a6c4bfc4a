[package]
name = "peppi"
version = "0.1.0"
edition = "2021"
publish = false

[dependencies]
base64 = "0.22"
num_enum = "0.7"
serde = { version = "1", features = ["derive"] }
serde_json = "1"
