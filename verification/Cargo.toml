[package]
name = "consensus_mpt"
version = "0.1.0"
edition = "2021"
publish = false

[dependencies]
alloy = { version = "=2.5.0", default-features = false, features = ["sol-types"] }
alloy-primitives = { version = "=1.7.3", features = ["serde"] }
alloy-rlp = "=0.3.16"
alloy-trie = { version = "=0.9.8", features = ["ethereum"] }
anyhow = "=1.0.104"
log = "=0.4.34"
serde = { version = "=1.0.229", features = ["derive"] }
serde_json = "=1.0.154"
tokio = { version = "=1.54.1", features = ["rt-multi-thread", "macros", "sync", "time"] }
