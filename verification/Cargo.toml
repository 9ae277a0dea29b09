[package]
name = "bf_competition"
version = "1.0.1"
edition = "2021"
publish = false

[dependencies]
soroban-sdk = "22"
