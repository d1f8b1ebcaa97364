[package]
name = "qwen3-5-rs"
version = "0.1.0"
edition = "2021"
publish = false

[dependencies]
byteorder = "=1.5.0"
clap = { version = "=4.6.7", features = ["derive"] }
cubecl = { version = "0.10", default-features = false }
cubecl-cuda = { version = "0.10", default-features = false }
serde = { version = "=1.0.229", features = ["derive"] }
serde_json = "=1.0.154"
