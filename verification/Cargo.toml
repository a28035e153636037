[package]
name = "svdtools"
version = "0.1.0"
edition = "2021"
publish = false

[dependencies]
globset = "=0.4.21"
anyhow = "=1.0.104"
clap = { version = "=4.6.7", features = ["derive"] }
env_logger = "=0.11.11"
log = "=0.4.35"
quick-xml = { version = "=0.42.0", features = ["serialize"] }
serde = { version = "=1.0.229", features = ["derive"] }
svd-encoder = "0.14"
svd-parser = "=0.14.10"
svd-rs = "=0.14.13"
yaml-rust = "=0.4.5"
