[package]
name = "merkle_hash"
version = "3.8.0"
edition = "2021"
publish = false

[dependencies]
anyhow = "*"
blake3 = "*"
camino = "*"
rayon = "*"
sha2 = "*"
