[package]
name = "stratum_core"
version = "0.1.0"
edition = "2021"
publish = false

[dependencies]
snow = "0.9"
ed25519-dalek = { version = "2", features = ["rand_core"] }
rand = "0.8"
