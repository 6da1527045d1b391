[package]
name = "carrot_amm"
version = "0.1.0"
edition = "2021"
publish = false

[dependencies]
anyhow = "=1.0.104"
thiserror = "=2.0.21"
solana-pubkey = "=3.0.0"
