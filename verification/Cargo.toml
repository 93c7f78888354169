[package]
name = "incrementally_constrained_prf"
version = "0.1.0"
edition = "2021"
publish = false

[dependencies]
chacha20 = "*"
bitcoin_hashes = "*"
