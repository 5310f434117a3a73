[package]
name = "consensus_p2p"
version = "0.1.0"
edition = "2021"
publish = false

[dependencies]
discv5 = { version = "0.1", default-features = false }
env_logger = { version = "0.9", default-features = false }
eth2_ssz = "0.4"
eth2_ssz_derive = "0.3"
eth2_ssz_types = "0.2"
fnv = "1"
futures = "0.3"
libp2p = { version = "0.52", default-features = false, features = ["dns", "ed25519", "gossipsub", "identify", "macros", "noise", "secp256k1", "tcp", "websocket", "yamux"] }
libp2p-dns = { version = "0.40", features = ["tokio"] }
libp2p-mplex = "0.40"
libp2p-swarm = { version = "0.43", features = ["tokio"] }
libp2p-tcp = { version = "0.40", features = ["tokio"] }
serde = "1"
serde_derive = "1"
sha2 = "0.10"
smallvec = "1"
snap = "1"
tokio = { version = "1", features = ["macros", "rt-multi-thread", "sync", "time"] }
tokio-io-timeout = "1"
tokio-util = { version = "0.6", features = ["codec", "compat", "time"] }
tree_hash = "0.4"
unsigned-varint = { version = "0.6", features = ["codec"] }
