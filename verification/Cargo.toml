[package]
name = "seej"
version = "0.1.0"
edition = "2021"
publish = false

[dependencies]
crc32fast = "1"
xxhash-rust = { version = "0.8", features = ["xxh64"] }
serde = { version = "1", features = ["derive"] }
serde_json = "1"

[dev-dependencies]
tempfile = "3"
