[package]
name = "ogent"
version = "0.1.0"
edition = "2021"
publish = false

[dependencies]
unicode-width = "=0.2.3"
serde = { version = "=1.0.229", features = ["derive"] }
serde_json = "=1.0.154"
serde_yaml = "=0.9.34"
clap = { version = "=4.6.7", features = ["derive"] }
anyhow = "=1.0.104"
base64 = "=0.23.1"
regex = "1"
globset = "0.4"
similar = "2"
nucleo-matcher = "0.3"
