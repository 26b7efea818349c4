[package]
name = "token_ledger"
version = "0.1.0"
edition = "2021"
publish = false

[dependencies]
sha2 = "0.10"
hex = "0.4"
intmap = "0.7"
rand_core = { version = "0.6", features = ["getrandom"] }
