//! A small hash-linked blockchain example: string-payload blocks, the same
//! proposal and vote messages as the sketch, and a queue of network
//! directories to feed into blocks one by one.
pub mod blocks;
pub mod messages;
pub mod network_dir;
