[package]
name = "cargo_lichking"
version = "0.1.0"
edition = "2021"
publish = false

[dependencies]
anyhow = "*"
cargo_metadata = "*"
clap = "*"
log = "*"
pretty_env_logger = "*"
regex = "*"
serde = "*"
slug = "*"
toml = "*"
