[package]
name = "metaboss"
version = "0.1.0"
edition = "2021"
publish = false

[dependencies]
anyhow = "1"
dialoguer = "0.10"
indexmap = { version = "1.9", features = ["serde-1"] }
log = "0.4"
mpl-token-metadata = { version = "~1.3", features = ["no-entrypoint"] }
retry = "1.3"
serde = { version = "1", features = ["derive"] }
serde_json = "1"
solana-program = "~1.14"
solana-sdk = "~1.14"
tokio = { version = "1", features = ["rt-multi-thread", "macros"] }
