[package]
name = "blockwise_reader"
version = "0.1.0"
edition = "2021"

[dependencies]
memmem = "*"
