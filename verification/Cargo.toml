[package]
name = "snow"
version = "0.1.0"
edition = "2021"
publish = false

[dependencies]
zeroize = "=1.9.1"
sha2 = "=0.10.9"
chacha20poly1305 = "=0.10.1"
