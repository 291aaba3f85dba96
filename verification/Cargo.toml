[package]
name = "easyfraud"
version = "0.1.0"
edition = "2021"
publish = false

[dependencies]
monotree = "*"
ed25519-dalek = { version = "2", features = ["rand_core"] }
celestia-types = "*"
tendermint = "*"

[dev-dependencies]
rand = "0.8"
