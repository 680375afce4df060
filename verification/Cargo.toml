[package]
name = "hash_bench"
version = "0.1.0"
edition = "2021"
publish = false

[dependencies]
regex = "1"
rand = "0.8"
blake3 = { version = "1", features = ["pure"] }
ahash = "0.8"
fnv = "1"
rustc-hash = "1"
seahash = "4"
highway = "1"
twox-hash = "1"
xxhash-rust = { version = "0.8", features = ["xxh3", "xxh64"] }
