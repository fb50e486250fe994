[package]
name = "pedersen_chain"
version = "0.1.0"
edition = "2021"
publish = false

[dependencies]
bellman_ce = "=0.3.5"
rand = "=0.4.6"
sapling-crypto_ce = "=0.1.3"
