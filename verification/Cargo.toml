[package]
name = "cs244b_project"
version = "0.1.0"
edition = "2021"
publish = false

[dependencies]
sha2 = "0.9"
ed25519-dalek = "1"
rand = "0.7"
itertools = "0.10"
hex = "0.4"
chrono = "0.4"
serde = { version = "1", features = ["derive"] }
serde_json = "1"
bincode = "1"
log = "0.4"
pretty_env_logger = "0.4"
tokio = { version = "1", features = ["full"] }
libp2p = { version = "0.39", default-features = false, features = ["floodsub", "mdns", "tcp-tokio", "noise", "mplex"] }
