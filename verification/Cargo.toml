[package]
name = "libhej"
version = "0.1.0"
edition = "2021"
publish = false

[dependencies]
ring = "*"
base64 = "*"
