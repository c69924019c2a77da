[package]
name = "jp_lox"
version = "0.1.0"
edition = "2021"
publish = false

[dependencies]
anyhow = "*"
clap = { version = "*", features = ["derive"] }
clap-stdin = "*"
convert_case = "*"
env_logger = "*"
log = "*"
