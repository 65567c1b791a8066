[package]
name = "peerdas_kzg"
version = "0.1.0"
edition = "2021"
publish = false

[dependencies]
bls12_381 = "0.8"
sha2 = "0.10"
jni = "0.21"
