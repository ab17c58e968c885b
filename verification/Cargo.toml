[package]
name = "mdlyricgetter"
version = "0.1.0"
edition = "2021"
publish = false

[dependencies]
anyhow = "*"
clap = { version = "*", features = ["derive"] }
env_logger = "*"
id3 = "*"
log = "*"
serde_json = "*"
walkdir = "*"
