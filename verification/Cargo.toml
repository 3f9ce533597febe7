[package]
name = "sedly"
version = "0.1.0"
edition = "2021"
publish = false

[dependencies]
hex = "=0.4.3"
sha2 = "=0.10.9"
tendermint = "=0.40.4"
tendermint-abci = "=0.40.4"
tendermint-proto = "=0.40.4"
