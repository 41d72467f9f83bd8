[package]
name = "ix_encryption"
version = "0.1.0"
edition = "2021"
publish = false

[dependencies]
chacha20poly1305 = "0.10"
chrono = "0.4"
getrandom = "0.2"
hex = "0.4"
rand = "0.8"
sha2 = "0.10"
zeroize = "1"
