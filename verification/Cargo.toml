[package]
name = "env_overlay"
version = "0.1.0"
edition = "2021"
publish = false

[dependencies]
serde = "=1.0.229"
toml = "=0.4.10"

[dev-dependencies]
regex = "1"
