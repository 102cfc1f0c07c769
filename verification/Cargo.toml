[package]
name = "pow_ledger"
version = "0.1.0"
edition = "2021"
publish = false

[dependencies]
bs58 = "0.4"
hex = "0.4"
pcg_rand = "0.13"
rand = "0.8"
ripemd = "0.1"
rs_merkle = "1"
secp256k1 = { version = "0.27", features = ["bitcoin-hashes-std"] }
sha256 = { version = "1", default-features = false }
