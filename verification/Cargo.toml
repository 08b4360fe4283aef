[package]
name = "bastionlab"
version = "0.1.0"
edition = "2021"
publish = false

[dependencies]
uuid = { version = "*", features = ["v4"] }
ring = "*"
jsonwebtoken = "*"
serde = { version = "*", features = ["derive"] }
serde_json = "*"
