[package]
name = "yeet"
version = "0.1.0"
edition = "2021"
publish = false

[dependencies]
dirs = "=5.0.1"
freedesktop-desktop-entry = { version = "=0.7.19", default-features = false }
libc = "=0.2.191"
serde = { version = "=1.0.229", features = ["derive"] }
toml = "=0.8.23"
