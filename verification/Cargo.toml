[package]
name = "event_store"
version = "0.1.0"
edition = "2021"
publish = false

[dependencies]
criterion = "0.5"
rocksdb = { version = "0.22", default-features = false }
