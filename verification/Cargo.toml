[package]
name = "threshold_encryption"
version = "0.1.0"
edition = "2021"
publish = false

[dependencies]
ark-bls12-381 = "0.4"
ark-ec = "0.4"
ark-ff = "0.4"
ark-serialize = "0.4"
ark-std = "0.4"
chacha20 = "0.9"
hex = "0.4"
rand_core = "0.6"
sha2 = "0.10"
sha256 = { version = "1", default-features = false }
thiserror = "1"
