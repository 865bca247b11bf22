[package]
name = "messi"
version = "0.1.0"
edition = "2021"
publish = false

[dependencies]
sha1 = "0.10"
flate2 = "1"
serde = { version = "1", features = ["derive"] }
serde_json = "1"
chrono = "0.4"
