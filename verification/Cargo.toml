[package]
name = "arctica"
version = "0.1.0"
edition = "2021"
publish = false

[dependencies]
bitcoincore-rpc = "=0.17.0"
bitcoin = "=0.30.3"
secp256k1 = { version = "=0.27.0", features = ["rand-std"] }
base64 = "=0.21.7"
home = "=0.5.12"
regex-syntax = "=0.8.11"
serde = { version = "=1.0.229", features = ["derive"] }
serde_json = "=1.0.154"
thiserror = "=1.0.69"
