[package]
name = "ipfs_api"
version = "0.1.0"
edition = "2021"
publish = false

[dependencies]
serde_json = "=1.0.151"
reqwest = { version = "=0.13.5", default-features = false, features = ["multipart", "query", "stream"] }
futures = "=0.3.34"
bytes = "=1.12.1"
