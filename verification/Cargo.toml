[package]
name = "goldy_doom"
version = "0.1.0"
edition = "2021"
publish = false

[dependencies]
regex = "=1.13.1"
indexmap = "=2.14.2"
anyhow = "=1.0.104"
bincode = "=1.3.3"
serde = { version = "=1.0.229", features = ["derive"] }
toml = "=0.8.23"
clap = { version = "=4.6.7", features = ["derive"] }
env_logger = "=0.11.11"
log = "=0.4.35"
glam = "*"
