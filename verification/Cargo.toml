[package]
name = "redsuite"
version = "0.1.0"
edition = "2021"
publish = false

[dependencies]
sha2 = "=0.10.9"
borsh = "=1.8.1"
bincode = "=1.3.3"
serde = { version = "1", features = ["derive"] }
solana-program = "3.0"
solana-pubkey = "3.0"
solana-sdk-ids = "3.1"
solana-instruction = "3"
ephemeral-rollups-sdk = "0.17"
magicblock-magic-program-api = "1.1"
solana-keypair = "3"
solana-signer = "3"
solana-signature = "3"
solana-account = "3"
solana-transaction = "3"
tokio = { version = "1", features = ["time", "rt", "macros"] }
async-trait = "0.1"
futures-util = "0.3"
