[package]
name = "mainline_client"
version = "0.1.0"
edition = "2021"
publish = false

[dependencies]
crc32c = "*"
getrandom = "0.2"
