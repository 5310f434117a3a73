//! The logic of a small consensus-layer peer-to-peer node: the request/response
//! domain, peer management, discovery bookkeeping and gossip message handling.
//! Sockets, timers and cryptographic handshakes belong to the program around it.

pub mod buffer;
pub mod chain;
pub mod collections;
pub mod config;
pub mod discovery;
pub mod enr;
pub mod gossip;
pub mod node;
pub mod peer;
pub mod peer_manager;
pub mod report;
pub mod rpc;
pub mod snappy;
pub mod varint;
pub mod wire;
