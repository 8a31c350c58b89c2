[package]
name = "tspa"
version = "0.1.0"
edition = "2021"
publish = false

[dependencies]
aes = "0.8"
anyhow = "1"
async-trait = "0.1"
bincode = "1"
blake3 = { version = "1", features = ["pure"] }
chacha20poly1305 = "0.10"
clap = { version = "4", features = ["derive"] }
csv = "1"
ctr = "0.9"
curve25519-dalek = "4"
ed25519-dalek = "2"
futures = "0.3"
rand_chacha = "0.3"
rand_core = "0.6"
serde = { version = "1", features = ["derive"] }
serde_json = "1"
tokio = { version = "1", features = ["rt-multi-thread", "macros", "net", "io-util", "sync", "time"] }
