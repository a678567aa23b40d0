[package]
name = "era_engine"
version = "0.1.0"
edition = "2021"
publish = false

[dependencies]
blake3 = "1"
zstd = "0.13"
zeroize = "1"
hex = "0.4"
rand = "0.8"
uuid = { version = "1", features = ["v4"] }
bytes = "1"
async-trait = "0.1"
tokio = { version = "1", features = ["rt", "rt-multi-thread", "sync", "time", "macros"] }
tracing = "0.1"
metrics = "0.24"
parking_lot = "0.12"
walkdir = "2"
tempfile = "3"
serde = { version = "1", features = ["derive"] }
bincode = { version = "2", features = ["serde"] }
rkyv = { version = "0.7", features = ["validation"] }
