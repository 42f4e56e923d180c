[package]
name = "filescraper"
version = "0.1.0"
edition = "2021"
publish = false

[dependencies]
anyhow = "*"
atomic-counter = "*"
clap = { version = "*", features = ["derive"] }
clap-verbosity-flag = "*"
colorful = "*"
env_logger = "*"
indicatif = { version = "*", features = ["rayon"] }
log = "*"
rayon = "*"
walkdir = "*"
