[package]
name = "trash_rs"
version = "0.1.0"
edition = "2021"
publish = false

[dependencies]
clap = { version = "=4.6.7", features = ["derive"] }
dirs = "=7.0.0"
env_logger = "=0.11.11"
glob = "=0.3.4"
log = "=0.4.34"
