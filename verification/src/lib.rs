//! Peer bookkeeping for a small peer-to-peer network node, with the pieces of
//! logic around it: the handshake protocol, address text, and the key/value
//! command handler of the demo server.

pub mod keyed;
pub mod peer;
pub mod peer_table;
pub mod controller;
pub mod kv_store;
pub mod handshake;
pub mod address;
pub mod client;
