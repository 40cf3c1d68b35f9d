[package]
name = "reward_ledger"
version = "0.1.0"
edition = "2021"
publish = false

[dependencies]
primitive-types = "*"
serde_json = "1"
