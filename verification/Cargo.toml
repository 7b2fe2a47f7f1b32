[package]
name = "rust_blockchain"
version = "0.1.0"
edition = "2021"
publish = false

[dependencies]
chrono = "0.4"
crossbeam = "0.8"
futures = "0.3"
libp2p = { version = "0.57", default-features = false, features = ["gossipsub", "macros", "mdns", "noise", "tcp", "tokio", "yamux"] }
log = "0.4"
num_cpus = "1"
once_cell = "1"
serde = { version = "1", features = ["derive"] }
serde_json = "1"
sha2 = "0.10"
tokio = { version = "1", features = ["full"] }
tokio-postgres = "0.7"
tracing = "0.1"
tracing-subscriber = "0.3"
