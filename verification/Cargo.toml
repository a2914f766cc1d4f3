[package]
name = "verdure"
version = "0.1.0"
edition = "2021"
publish = false

[dependencies]
dashmap = "*"
toml = "*"
serde_yaml = "*"
serde = { version = "*", features = ["derive"] }
