[package]
name = "cuckoo"
version = "0.1.0"
edition = "2021"
publish = false

[dependencies]
rapidhash = "*"
xxhash-rust = { version = "*", features = ["xxh3"] }
