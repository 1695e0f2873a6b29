[package]
name = "child_farming"
version = "0.1.0"
edition = "2021"
publish = false

[dependencies]
near-sdk = { version = "=5.29.1", features = ["non-contract-usage"] }
near-contract-standards = "=5.29.1"
serde_json = "=1.0.151"
