//! The player of the first design.
pub mod player;
