[package]
name = "biscuit"
version = "0.1.0"
edition = "2021"
publish = false

[dependencies]
chrono = "*"
getopts = "*"
alpm-rs = "*"

[dev-dependencies]
toml = "*"
