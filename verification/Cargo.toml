[package]
name = "enterprise"
version = "0.1.0"
edition = "2021"
publish = false

[dependencies]
cosmwasm-schema = "1"
cosmwasm-std = "1"
cw-asset = "2"
cw-utils = "1"
cw20 = "1"
serde-json-wasm = "0.5"
