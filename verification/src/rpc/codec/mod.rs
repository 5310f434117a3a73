//! How messages are written to and read from a substream.

pub mod base;
pub mod ssz_snappy;
