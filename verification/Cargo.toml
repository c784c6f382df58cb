[package]
name = "blockchain_rust"
version = "0.1.0"
edition = "2021"
publish = false

[dependencies]
anyhow = "1"
bigint = "4"
bincode = "1"
chrono = "0.4"
rust-crypto = "0.2"
ring = "0.16"
serde = { version = "1", features = ["derive"] }
serde_json = "1"
sled = "0.34"
thiserror = "1"
tracing = "0.1"
tracing-subscriber = "0.3"
tokio = { version = "1", features = ["full"] }
futures = "0.3"
once_cell = "1"
libp2p = { version = "0.39", default-features = false, features = ["gossipsub", "mdns", "tcp-tokio", "noise", "yamux", "mplex"] }

[dev-dependencies]
bs58 = "0.4"
