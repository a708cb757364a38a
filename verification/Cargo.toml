[package]
name = "scoop_find"
version = "0.1.0"
edition = "2021"
publish = false

[dependencies]
anyhow = "1"
regex = "1"
reqwest = { version = "0.11", features = ["blocking", "json"] }
serde_json = "1"
thiserror = "1"
