[package]
name = "staking_vault"
version = "0.1.0"
edition = "2021"
publish = false

[dependencies]
candid = "0.10"
ic-cdk = "0.13"
icrc-ledger-types = "0.1"
serde = "1"
