[package]
name = "trim_finder"
version = "0.1.0"
edition = "2021"
publish = false

[dependencies]
base64 = "=0.22.1"
blake3 = { version = "=1.8.7", features = ["pure"] }
miniz_oxide = "=0.8.9"
rayon = "=1.12.0"
serde_json = { version = "=1.0.154", features = ["preserve_order"] }
