[package]
name = "circuit_keys"
version = "0.1.0"
edition = "2021"
publish = false

[dependencies]
snarkvm-curves = "0.9"
snarkvm-fields = "0.9"
snarkvm-utilities = "0.9"
snarkvm-gadgets = "*"
serde = { version = "1", features = ["derive"] }
serde_json = "1"
rand = "0.8"
