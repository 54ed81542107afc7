[package]
name = "zero_lock"
version = "0.1.0"
edition = "2021"
publish = false

[dependencies]
blake2b-ref = "*"
merkle-cbt = "*"
ckb-std = "*"
