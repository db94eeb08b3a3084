[package]
name = "deep_fri"
version = "0.1.0"
edition = "2021"
publish = false

[dependencies]
sha3 = "0.10"
blake3 = "1"
rand = "0.8"
