[package]
name = "ovax"
version = "0.1.0"
edition = "2021"
publish = false

[dependencies]
sha2 = "0.10"
encoding_rs = "0.8"
serde = { version = "1", features = ["derive"] }
serde_json = "1"
clap = { version = "4", features = ["derive"] }
walkdir = "2"
rayon = "1"
mp4 = "0.14"
image = { version = "0.25", default-features = false, features = ["png", "jpeg"] }
ffmpeg-next = "*"
