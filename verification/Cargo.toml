[package]
name = "mpqsync"
version = "0.1.0"
edition = "2021"
publish = false

[dependencies]
clap = { version = "*", features = ["derive"] }
env_logger = "*"
ignore = "*"
log = "*"
stormlib-rs = "*"
tokio = { version = "*", features = ["rt"], default-features = false }
