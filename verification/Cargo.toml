[package]
name = "immutability"
version = "0.1.0"
edition = "2021"
publish = false

[dependencies]
anyhow = "*"
chrono = "*"
clap = { version = "*", features = ["derive"] }
env_logger = "*"
log = "*"
rayon = "*"
walkdir = "*"
