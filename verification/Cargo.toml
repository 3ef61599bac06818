[package]
name = "ratchet_tree"
version = "0.1.0"
edition = "2021"
publish = false

[dependencies]
k256 = "0.11"
bumpalo = "3"
rand_core = { version = "0.6", features = ["getrandom"] }
