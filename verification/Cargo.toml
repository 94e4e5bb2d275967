[package]
name = "nander-rs"
version = "0.1.0"
edition = "2021"
publish = false

[dependencies]
hex = "0.4"
nusb = "0.1"
futures-lite = "2"
async-io = "2"
clap = { version = "4", features = ["derive"] }
colored = "2"
indicatif = "0.17"
log = "0.4"
env_logger = "0.11"
anyhow = "1"
