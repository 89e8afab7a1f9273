[package]
name = "lazy_export"
version = "0.1.0"
edition = "2021"
publish = false

[dependencies]
append-only-vec = "=0.1.10"
indexmap = "=2.14.2"
oxc = { version = "0.143", features = ["semantic"] }
oxc_str = "0.143"
rustc-hash = "=2.1.3"
smallvec = "=1.16.4"
