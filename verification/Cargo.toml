[package]
name = "kv_router"
version = "0.1.0"
edition = "2021"
publish = false

[dependencies]
dashmap = "6"
rustc-hash = "2"
