[package]
name = "mooncats"
version = "0.1.0"
edition = "2021"
publish = false

[dependencies]
anyhow = "*"
clap = "*"
env_logger = "*"
handlebars = "*"
log = "*"
serde = { version = "*", features = ["derive"] }
serde_json = "*"
tempdir = "*"
toml = "*"
url = "*"
