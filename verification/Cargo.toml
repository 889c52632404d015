[package]
name = "constellation-encoder"
version = "0.1.0"
edition = "2021"
publish = false

[dependencies]
reed-solomon-erasure = "6.0.0"

[dev-dependencies]
rand = "0.8"
