[package]
name = "melodot_da"
version = "0.1.0"
edition = "2021"
publish = false

[dependencies]
c-kzg = "*"
rand = "0.8"
blake2 = "0.10"
