[package]
name = "ecat"
version = "0.1.0"
edition = "2021"
publish = false

[dependencies]
ansi_term = "0.12"
anyhow = "1"
atty = "0.2"
clap = "2"
crossbeam = "0.8"
crossbeam-channel = "0.5"
dirs = "*"
regex = "1"
serde = { version = "1", features = ["derive"] }
serde_yaml = "0.8"
