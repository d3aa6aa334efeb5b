[package]
name = "liquid_gov"
version = "0.1.0"
edition = "2021"
publish = false

[dependencies]
cosmwasm-std = { version = "=1.5.11", features = ["staking", "stargate"] }
cosmwasm-schema = "=1.5.11"
cw-storage-plus = "=1.2.0"
cw2 = "=1.1.2"
cw-utils = "=1.0.3"
thiserror = "=1.0.69"
