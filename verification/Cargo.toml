[package]
name = "ip6gen"
version = "0.1.0"
edition = "2021"
publish = false

[dependencies]
ipnetwork = { version = "*", default-features = false }
rust-crypto = "0.2.36"
