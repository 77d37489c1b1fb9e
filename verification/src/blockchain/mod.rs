//! Blocks, chains of signed blocks, and the manager of notarized and
//! finalized chains.
pub mod block;
pub mod chain;
pub mod manager;
pub mod blocks;
