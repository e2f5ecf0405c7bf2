[package]
name = "zkvm"
version = "0.1.0"
edition = "2021"
publish = false

[dependencies]
aes-gcm = "=0.10.3"
bellman = "=0.14.0"
bincode = "=1.3.3"
blake2 = "=0.10.6"
blake3 = "=1.8.7"
bls12_381 = "=0.8.0"
env_logger = "=0.11.11"
ff = "=0.13.1"
futures = "=0.3.34"
hashdb = "=0.3.0"
k256 = "=0.13.4"
libp2p = { version = "=0.57.1", default-features = false }
lru = "=0.7.8"
parking_lot = "=0.12.5"
patricia-trie = "=0.3.0"
rand = "=0.8.8"
rayon = "=1.12.0"
serde = { version = "=1.0.229", features = ["derive"] }
sha3 = "=0.10.9"
thiserror = "=1.0.69"
tokio = { version = "=1.54.1", features = ["sync", "time", "rt", "macros"] }
