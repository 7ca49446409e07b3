[package]
name = "timekeeper"
version = "0.1.0"
edition = "2021"
publish = false

[dependencies]
sp-runtime = "=2.0.1"
substrate-bip39 = "=0.4.2"
