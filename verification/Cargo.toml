[package]
name = "plonk_solana"
version = "0.1.0"
edition = "2021"
publish = false

[dependencies]
ark-bn254 = "=0.5.0"
ark-ff = "=0.5.0"
ark-ec = "=0.5.0"
ark-serialize = "=0.5.0"
solana-bn254 = "=3.2.1"
light-hasher = { version = "=7.0.0", features = ["keccak"] }
borsh = { version = "=1.8.1", features = ["derive"] }
serde = { version = "=1.0.229", features = ["derive"] }
serde_json = "=1.0.154"
thiserror = "=2.0.21"
num-bigint = "=0.4.8"
