[package]
name = "paystream"
version = "0.1.0"
edition = "2021"
publish = false

[dependencies]
near-sdk = "=4.0.0-pre.4"
near-contract-standards = "=4.0.0-pre.4"
