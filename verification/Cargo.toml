[package]
name = "file_archive"
version = "0.1.0"
edition = "2021"
publish = false

[dependencies]
chrono = { version = "=0.4.45", features = ["serde"] }
serde = "=1.0.229"
serde_derive = "=1.0.229"
serde_json = "=1.0.151"
