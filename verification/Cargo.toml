[package]
name = "parqcat"
version = "0.1.0"
edition = "2021"
publish = false

[dependencies]
arrow-array = "=60.1.0"
arrow-buffer = "=60.1.0"
arrow-schema = "=60.1.0"
parquet = { version = "=60.1.0", default-features = false, features = ["arrow", "snap", "brotli", "flate2-rust_backend", "lz4", "zstd"] }
chrono = { version = "=0.4.45", default-features = false, features = ["alloc"] }
base64 = "=0.23.1"
bytes = "=1.12.1"
serde_json = "=1.0.154"
flate2 = "=1.1.10"
zstd = "=0.14.3"
