[package]
name = "stacky"
version = "0.1.0"
edition = "2021"
publish = false

[dependencies]
serde = { version = "*", features = ["derive"] }
serde_json = "*"
tokio = { version = "*", features = ["full"] }
nvim-rs = { version = "*", features = ["use_tokio"] }
