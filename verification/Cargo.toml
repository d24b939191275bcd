[package]
name = "mvcc_txn"
version = "0.1.0"
edition = "2021"
publish = false

[dependencies]
semver = "1"
rand = "0.7"
hex = "0.4"
