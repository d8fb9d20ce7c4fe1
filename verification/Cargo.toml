[package]
name = "bg3_refdb"
version = "0.1.0"
edition = "2021"
publish = false

[dependencies]
crossbeam-channel = "=0.5.17"
rayon = "=1.12.0"
regex = "=1.13.1"
rmp-serde = "=1.3.1"
rusqlite = { version = "=0.41.1", features = ["bundled", "backup"] }
serde = { version = "=1.0.229", features = ["derive"] }
serde_json = { version = "=1.0.154", features = ["raw_value"] }
tracing = "=0.1.44"
walkdir = "=2.5.0"
