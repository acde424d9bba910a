[package]
name = "local_coding_ai"
version = "0.1.0"
edition = "2021"
publish = false

[dependencies]
serde = { version = "1", features = ["derive"] }
serde_json = "1"
walkdir = "2"
eframe = { version = "0.29", default-features = false, features = ["glow", "x11", "default_fonts"] }
