[package]
name = "rustychain"
version = "0.1.0"
edition = "2021"
publish = false

[dependencies]
bincode = "1.3"
bs58 = "0.5"
clap = "4"
rust-crypto = "0.2"
rand = "0.8"
secp256k1 = "0.29"
serde = { version = "1", features = ["derive"] }
sha2 = "0.10"
sled = "0.34"
