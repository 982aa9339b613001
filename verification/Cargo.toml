[package]
name = "ghi"
version = "0.1.0"
edition = "2021"
publish = false

[dependencies]
fuzzy-matcher = "*"
anyhow = "*"
clap = { version = "*", features = ["derive"] }
crossterm = "*"
dirs = "*"
serde = { version = "*", features = ["derive"] }
toml = "*"
