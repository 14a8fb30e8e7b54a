[package]
name = "sharibo"
version = "0.1.0"
edition = "2021"
publish = false

[dependencies]
soroban-sdk = "=29.0.1"

[dev-dependencies]
soroban-sdk = { version = "=29.0.1", features = ["testutils", "hazmat-address"] }
ark-bls12-381 = "=0.4.0"
ark-ff = "=0.4.2"
ark-serialize = "=0.4.2"
proptest = "=1.12.0"
