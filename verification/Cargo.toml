[package]
name = "arweave_tx"
version = "0.1.0"
edition = "2021"
publish = false

[dependencies]
base64 = "0.13"
jsonwebkey = { version = "0.3", features = ["pkcs-convert"] }
ring = "0.16"
serde = { version = "1", features = ["derive"] }
serde_json = "1"
sha2 = "0.10"
