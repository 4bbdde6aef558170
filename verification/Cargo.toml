[package]
name = "hoard"
version = "0.1.0"
edition = "2021"
publish = false

[dependencies]
chrono = "=0.4.45"
flate2 = "=1.1.10"
hex = "=0.4.3"
nix = { version = "=0.31.3", features = ["fs"] }
rand = "=0.10.3"
regex = "=1.13.1"
rusqlite = { version = "=0.40.2", features = ["bundled"] }
rust-lzma = "=0.6.0"
serde = { version = "=1.0.229", features = ["derive"] }
serde_yaml = "=0.9.34"
sha1 = "=0.11.0"
sha2 = "=0.11.0"
sha3 = "=0.12.0"
tar = "=0.4.46"
uuid = { version = "=1.27.0", features = ["v4"] }
zip = { version = "=8.6.0", default-features = false }
zstd = "=0.14.0"
