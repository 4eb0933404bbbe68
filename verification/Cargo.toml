[package]
name = "lending_core"
version = "0.1.0"
edition = "2021"
publish = false

[dependencies]
cosmwasm-std = { version = "=0.16.7", features = ["iterator"] }
cosmwasm-storage = { version = "=0.16.7", features = ["iterator"] }
cosmwasm-bignumber = "=2.2.0"
bigint = "=4.4.3"
moneymarket = "=0.3.0"
terra-cosmwasm = "=2.2.0"
cw20 = "=0.8.1"
schemars = "=0.8.22"
serde = { version = "=1.0.229", default-features = false, features = ["derive"] }
