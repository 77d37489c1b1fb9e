//! Streamlet consensus with a transparency-log application: blocks, chains,
//! the chain manager, signed messages, peer discovery and the node's
//! per-event decisions.

pub mod crypto;
pub mod encoding;
pub mod decoding;
pub mod text;
pub mod clock;
pub mod blockchain;
pub mod messages;
pub mod wire;
pub mod peer_init;
pub mod network;
pub mod app;
pub mod streamlet;
pub mod prototype;
pub mod example;
pub mod simple_chain;
pub mod config;
pub mod p2p;
pub mod player;
