[package]
name = "trusted_setup"
version = "0.1.0"
edition = "2021"
publish = false

[dependencies]
hex = "0.4"
bls12_381 = "0.8"
