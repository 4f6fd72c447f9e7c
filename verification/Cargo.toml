[package]
name = "messaging"
version = "0.1.0"
edition = "2021"
publish = false

[dependencies]
solana-sdk = "*"
thiserror = "*"
num-derive = "*"
num-traits = "*"
