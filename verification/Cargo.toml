[package]
name = "ctxsnap"
version = "0.1.0"
edition = "2021"
publish = false

[dependencies]
anyhow = "1"
chrono = "0.4"
clap = { version = "4", features = ["derive"] }
encoding_rs = "0.8"
ignore = "0.4"
regex = "1"
serde = { version = "1", features = ["derive"] }
tempfile = "3"
toml = "0.8"
