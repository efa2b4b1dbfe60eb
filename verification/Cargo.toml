[package]
name = "stake_flow"
version = "0.1.0"
edition = "2021"
publish = false

[dependencies]
quinn = { version = "=0.11.12", default-features = false }
clap = { version = "=4.6.7", features = ["derive"] }
solana-sdk = "=5.0.0"
solana-quic-definitions = "=3.0.0"
solana-packet = "=4.4.0"
