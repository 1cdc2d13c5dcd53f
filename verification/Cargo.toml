[package]
name = "keystore"
version = "0.1.0"
edition = "2021"
publish = false

[dependencies]
keyring = { version = "3", features = ["apple-native", "async-io", "async-secret-service", "crypto-rust"] }
tracing = "0.1"
zeroize = "1"
