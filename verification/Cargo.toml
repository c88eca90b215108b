[package]
name = "chains"
version = "0.1.0"
edition = "2021"
publish = false

[dependencies]
bincode = "1.3"
blake3 = "1"
chacha20poly1305 = "0.10"
clap = { version = "4", features = ["derive"] }
ed25519-dalek = "2"
futures = "0.3"
hex = "0.4"
hmac = "0.12"
libp2p = { version = "0.53", features = ["tokio", "gossipsub", "kad", "mdns", "identify", "request-response", "cbor", "tcp", "noise", "yamux", "macros"] }
rand = "0.8"
serde = { version = "1", features = ["derive"] }
sha2 = "0.10"
sled = "0.34"
tokio = { version = "1", features = ["full"] }
x25519-dalek = { version = "2", features = ["static_secrets"] }

[dev-dependencies]
tempfile = "3"
