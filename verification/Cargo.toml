[package]
name = "cctp_forwarder"
version = "0.1.0"
edition = "2021"
publish = false

[dependencies]
cosmwasm-std = { version = "1.5", features = ["cosmwasm_1_2"] }
cosmwasm-schema = "1.5"
cw-storage-plus = "1.2"
cw2 = "1.1"
cw-utils = "1.0"
serde_json = "1"
hex = "0.4"
bech32 = "0.9"
sha2 = "0.10"
thiserror = "1"
