[package]
name = "field_assist"
version = "0.1.0"
edition = "2021"
publish = false

[dependencies]
blake3 = { version = "=1.8.7", features = ["pure"] }
uuid = { version = "=1.29.0", features = ["v4"] }
serde = { version = "=1.0.229", features = ["derive"] }
serde_json = "=1.0.154"
crossterm = "=0.29.0"

[dev-dependencies]
tempfile = "=3.27.0"
