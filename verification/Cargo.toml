[package]
name = "video_library"
version = "0.1.0"
edition = "2021"
publish = false

[dependencies]
rand = "0.8"
walkdir = "*"
actix-web = "4"
actix-files = "*"
clap = { version = "4", features = ["derive"] }
dirs = "*"
serde = { version = "1", features = ["derive"] }
toml = "*"

[dev-dependencies]
tempfile = "*"
