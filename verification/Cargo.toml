[package]
name = "extendable-assets"
version = "0.1.0"
edition = "2021"
publish = false

[dependencies]
anyhow = "1"
async-trait = "0.1"
downcast-rs = "*"
parking_lot = "0.12"
rand = "*"
rmp-serde = "1"
rust-embed = "8"
serde = { version = "1", features = ["derive"] }
serde_bytes = "0.11"
serde_json = "1"
thiserror = "2"
xxhash-rust = { version = "0.8", features = ["xxh3", "const_xxh3"] }
