[package]
name = "tokitai_context"
version = "0.1.0"
edition = "2021"
publish = false

[dependencies]
sha2 = "=0.10.9"
crc32c = "=0.6.9"
hex = "=0.4.3"
rand = "=0.8.8"
dashmap = "=6.2.1"
serde = { version = "=1.0.229", features = ["derive"] }
serde_json = "=1.0.154"
libc = "=0.2.191"
walkdir = "=2.5.0"
chrono = { version = "=0.4.45", default-features = false, features = ["clock", "serde"] }
regex = "=1.13.1"
prometheus = { version = "=0.13.4", default-features = false }
fuser = { version = "=0.15.1", default-features = false }
zstd = "0.13"
