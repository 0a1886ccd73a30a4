[package]
name = "sockets_map"
version = "0.1.0"
edition = "2021"
publish = false

[dependencies]
anyhow = "1"
csv = "1"
hex = "0.4"
regex = "1"
sha1 = "0.10"
