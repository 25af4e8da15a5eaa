[package]
name = "wallrot"
version = "0.1.0"
edition = "2021"
publish = false

[dependencies]
blake3 = "*"
rayon = "*"
serde = { version = "*", features = ["derive"] }
serde_json = "*"
walkdir = "*"
