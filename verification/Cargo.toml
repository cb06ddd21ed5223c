[package]
name = "rustkv"
version = "0.1.0"
edition = "2021"
publish = false

[dependencies]
crc32c = "0.6"
fjall = "3.1.8"
