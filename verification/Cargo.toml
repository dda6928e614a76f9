[package]
name = "checker"
version = "0.1.0"
edition = "2021"
publish = false

[dependencies]
shellwords = "1"
clap = "4"
log = "0.4"
pretty_env_logger = "0.5"
