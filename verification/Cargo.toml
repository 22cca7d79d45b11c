[package]
name = "mia"
version = "0.1.0"
edition = "2021"
publish = false

[dependencies]
regex = "=1.13.1"
serde = { version = "=1.0.229", features = ["derive"] }
serde_json = "=1.0.154"
unicode-normalization = "=0.1.26"
unicode-segmentation = "=1.13.3"
