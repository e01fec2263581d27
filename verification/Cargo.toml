[package]
name = "package_validator"
version = "0.1.0"
edition = "2021"
publish = false

[dependencies]
anyhow = "*"
clap = { version = "*", features = ["derive"] }
comfy-table = "*"
goblin = "*"
path-clean = "*"
serde = { version = "*", features = ["derive"] }
serde_json = "*"
tempfile = "*"
thiserror = "*"
wait-timeout = "*"
walkdir = "*"
