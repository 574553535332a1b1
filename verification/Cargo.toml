[package]
name = "ed448_goldilocks"
version = "0.1.0"
edition = "2021"
publish = false

[dependencies]
fiat-crypto = "=0.3.0"
elliptic-curve = { version = "=0.13.8", features = ["hash2curve"] }
sha3 = "=0.10.9"
rand_core = "=0.6.4"
subtle = "=2.6.1"
