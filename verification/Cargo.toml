[package]
name = "kineto"
version = "0.1.0"
edition = "2021"
publish = false

[dependencies]
clap = { version = "4", features = ["derive"] }
ffmpeg-the-third = "*"
image = { version = "0.25", default-features = false, features = ["png"] }
rayon = "1"
serde = { version = "1", features = ["derive"] }
serde_json = "1"
