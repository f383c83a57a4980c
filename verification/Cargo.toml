[package]
name = "hswe_implementation"
version = "0.1.0"
edition = "2021"
publish = false

[dependencies]
ark-bls12-381 = "0.5.0"
ark-ec = "0.5.0"
ark-ff = "0.5.0"
ark-serialize = "0.5.0"
rand = "0.8.5"
sha2 = "0.10.9"
thiserror = "2.0.18"
