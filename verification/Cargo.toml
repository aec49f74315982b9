[package]
name = "rust_poker"
version = "0.1.0"
edition = "2021"
publish = false

[dependencies]
itertools = "0.13"
rand = { version = "0.8", features = ["small_rng"] }
lazy_static = "1"
base64 = "0.22"
concurrent-queue = "2"
dashmap = "6"
flate2 = "1"
serde_json = "1"
rayon = "1"
indicatif = { version = "0.17", features = ["rayon"] }
