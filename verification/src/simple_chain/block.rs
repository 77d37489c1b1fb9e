//! A block with a numeric id and string hashes.
use vstd::prelude::*;

verus! {

/// A block: its id, its time, its hash, the previous block's hash and its payload.
#[derive(Debug)]
pub struct Block {
    pub id: u64,
    pub timestamp: i64,
    pub hash: String,
    pub prev_hash: String,
    pub payload: String,
}

impl Block {
    /// A block with these fields.
    pub fn new(id: u64, timestamp: i64, hash: String, prev_hash: String, payload: String) -> (b: Block)
        ensures
            b.id == id,
            b.timestamp == timestamp,
            b.hash == hash,
            b.prev_hash == prev_hash,
            b.payload == payload,
    {
        Block { id, timestamp, hash, prev_hash, payload }
    }
}

} // verus!
