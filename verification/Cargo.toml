[package]
name = "txed"
version = "0.1.0"
edition = "2021"
publish = false

[dependencies]
regex = "1"
memchr = "2"
globset = "0.4"
similar = "2"
base64 = "0.22"
serde = { version = "1", features = ["derive"] }
serde_json = "1"
clap = { version = "4", features = ["derive"] }
anyhow = "1"
thiserror = "1"
tempfile = "3"
schemars = "0.8"
