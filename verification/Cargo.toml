[package]
name = "proving_trie"
version = "0.1.0"
edition = "2021"
publish = false

[dependencies]
sp-trie = "=47.0.0"
sp-core = "=43.0.0"
parity-scale-codec = "=3.7.5"
trie-db = "=0.32.0"
