[package]
name = "berkle"
version = "0.1.0"
edition = "2021"
publish = false

[dependencies]
blake3 = "=1.8.7"
bls12_381 = { version = "=0.6.1", default-features = false, features = ["groups", "pairings", "alloc"] }
either = "=1.19.0"
kzg = "=0.6.0"
