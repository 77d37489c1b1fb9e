//! The example's messages are the sketch's addressed messages: a
//! destination, a proposal payload, the signatures on it and a kind.
pub use crate::prototype::messages::{Message, MessageHeader, MessageKind, MessagePayload};
