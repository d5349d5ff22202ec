[package]
name = "run_clang_format"
version = "0.1.0"
edition = "2021"
publish = false

[dependencies]
globmatch = "0.2"
clap = "3"
color-eyre = "0.6"
console = "0.15"
env_logger = "0.10"
eyre = "0.6"
indicatif = "0.17"
log = "0.4"
rayon = "1"
schemars = "0.8"
scopeguard = "1"
serde = { version = "1", features = ["derive"] }
serde_json = "1"
