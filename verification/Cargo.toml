[package]
name = "stores"
version = "0.1.0"
edition = "2021"
publish = false

[dependencies]
regex = "1"
isolang = "2"
uuid = { version = "1", features = ["v4"] }
serde = { version = "1", features = ["derive"] }
serde_json = "1"
validator = "0.21"
