[package]
name = "const_lru"
version = "1.0.0"
edition = "2021"
publish = false

[dependencies]
num-traits = { version = "0.2", default-features = false }
