[package]
name = "glean-hs"
version = "0.1.0"
edition = "2021"
publish = false

[dependencies]
smallvec = { version = "1", features = ["write"] }
rocksdb = { version = "*", default-features = false }
