[package]
name = "jump"
version = "0.1.0"
edition = "2021"
publish = false

[dependencies]
bincode = "1"
regex = "1"
toml = "0.8"
dirs = "*"
