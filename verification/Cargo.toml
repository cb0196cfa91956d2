[package]
name = "aletheia_storage"
version = "0.1.0"
edition = "2021"
publish = false

[dependencies]
bitcode = "0.6"
dashmap = "6"
parking_lot = "0.12"
quick_cache = "0.6"
thiserror = "2"
