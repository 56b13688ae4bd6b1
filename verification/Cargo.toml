[package]
name = "fuzz_store"
version = "0.1.0"
edition = "2021"
publish = false

[dependencies]
rand_core = "0.5"
rand_pcg = "0.2"
