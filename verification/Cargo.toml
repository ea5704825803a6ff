[package]
name = "northstar"
version = "0.1.0"
edition = "2021"
publish = false

[dependencies]
url = "*"
serde = { version = "*", features = ["derive"] }
serde_yaml = "*"
serde_json = "*"
toml = "*"
nix = { version = "*", features = ["user", "fs"] }
memfd = "*"
nanoid = "*"
humantime-serde = "*"
