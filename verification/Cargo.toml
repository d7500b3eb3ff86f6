[package]
name = "infra_net_libp2p"
version = "0.1.0"
edition = "2021"
publish = false

[dependencies]
libp2p = { version = "0.56", features = ["tokio", "tcp", "quic", "noise", "yamux", "gossipsub", "kad", "mdns", "relay", "dcutr", "autonat", "identify", "request-response", "macros", "ed25519", "secp256k1"] }
ciborium = "0.2"
base64 = "0.22"
tokio = { version = "1", features = ["rt-multi-thread", "sync", "time", "macros"] }
futures = "0.3"
async-trait = "0.1"
rand = "0.8"
