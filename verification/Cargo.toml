[package]
name = "eo_processor"
version = "0.1.0"
edition = "2021"
publish = false

[dependencies]
rayon = "1"
ndarray = "0.15"
serde = { version = "1", features = ["derive"] }
serde_json = "1"
