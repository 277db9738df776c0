[package]
name = "odb_core"
version = "0.1.0"
edition = "2021"
publish = false

[dependencies]
git-features = { version = "0.22", features = ["rustsha1", "crc32"] }
serde_json = "1"
