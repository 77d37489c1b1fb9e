//! Blocks and messages of the sketch.
pub mod blocks;
pub mod messages;
