[package]
name = "read_api"
version = "0.1.0"
edition = "2021"
publish = false

[dependencies]
base64 = "*"
sha3 = "*"
move-core-types = "=0.0.3"
