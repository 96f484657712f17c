[package]
name = "redb_store"
version = "0.1.0"
edition = "2021"
publish = false

[dependencies]
rand = "0.7"
chrono = { version = "0.4", default-features = false }
xxhash-rust = { version = "0.8", features = ["xxh3"] }
