[package]
name = "atlas_idl_schema"
version = "0.1.0"
edition = "2021"
publish = false

[dependencies]
serde_json = "*"
solana-program = "*"
sha2 = "*"
bs58 = "*"
