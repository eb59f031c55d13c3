[package]
name = "rust-fuse"
version = "0.1.0"
edition = "2021"
publish = false

[dependencies]
bitmaps = "=3.2.1"
clap = { version = "=4.6.7", features = ["derive"] }
env_logger = "=0.11.11"
fuser = "0.17"
libc = "=0.2.191"
log = "=0.4.35"
serde = { version = "=1.0.229", features = ["derive"] }
serde_json = "=1.0.154"
