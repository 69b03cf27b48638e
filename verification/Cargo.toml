[package]
name = "rollup_core"
version = "0.1.0"
edition = "2021"
publish = false

[dependencies]
solana-sdk = "2.1"
spl-token = "7.0"
spl-associated-token-account = "6.0"
bincode = "1.3"
serde = { version = "1", features = ["derive"] }
