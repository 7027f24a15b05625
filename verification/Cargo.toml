[package]
name = "acpu"
version = "0.1.0"
edition = "2021"
publish = false

[dev-dependencies]
twenty-first = "*"
rand = "0.9"
