[package]
name = "earn_vault"
version = "0.1.0"
edition = "2021"
publish = false

[dependencies]
cosmwasm-std = "0.16"
cosmwasm-storage = "0.16"
cosmwasm-bignumber = "2.2"
cw20 = "0.8"
cw-storage-plus = "0.8"
terra-cosmwasm = "2.2"
schemars = "0.8"
serde = "1"
base64 = "0.13"
bigint = "4"
