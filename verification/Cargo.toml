[package]
name = "psi_protocol"
version = "0.1.0"
edition = "2021"
publish = false

[dependencies]
curve25519-dalek = { version = "4", features = ["rand_core", "digest"] }
sha2 = "0.10"
rand = "0.8"
hex = "0.4"
