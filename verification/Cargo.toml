[package]
name = "oxideav-pdf"
version = "0.1.0"
edition = "2021"
publish = false

[dependencies]
compcol = { version = "=0.6.11", default-features = false, features = ["zlib", "alloc"] }
oxideav-core = "=0.1.42"
oxideav-scene = "=0.1.4"
