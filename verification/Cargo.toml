[package]
name = "mist"
version = "0.1.0"
edition = "2021"
publish = false

[dependencies]
walkdir = "2"

[dev-dependencies]
serde_json = "1"
tempfile = "3"
