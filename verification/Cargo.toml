[package]
name = "cache_storage"
version = "0.1.0"
edition = "2021"
publish = false

[dependencies]
lru = "0.7"
parking_lot = "0.12"
anyhow = "1"
