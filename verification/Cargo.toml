[package]
name = "waitfile"
version = "0.1.0"
edition = "2021"
publish = false

[dependencies]
clap = "*"
env_logger = "*"
log = "*"
wait_file_created = "*"
