[package]
name = "qcoin"
version = "0.1.0"
edition = "2021"
publish = false

[dependencies]
blake3 = "*"
pqcrypto-dilithium = "*"
pqcrypto-falcon = "*"
pqcrypto-traits = "*"
zeroize = "*"
clap = { version = "*", features = ["derive"] }
serde = { version = "*", features = ["derive"] }
serde_json = "*"
