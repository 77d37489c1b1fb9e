//! Blocks that collect votes, and the chain trait over them.
pub mod block;
pub mod chain;
