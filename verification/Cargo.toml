[package]
name = "ping_node"
version = "0.1.0"
edition = "2021"
publish = false

[dependencies]
libp2p = { version = "0.53", default-features = false, features = ["ed25519", "ping", "tcp", "noise", "yamux", "async-std"] }
futures = "0.3"
async-std = { version = "1", features = ["attributes"] }
chrono = "0.4"
