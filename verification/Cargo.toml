[package]
name = "pbn-to-pdf"
version = "0.1.0"
edition = "2021"
publish = false

[dependencies]
printpdf = { version = "0.8", default-features = false }
lopdf = "*"
clap = { version = "4", features = ["derive"] }
anyhow = "1"
log = "0.4"
env_logger = "0.11"
