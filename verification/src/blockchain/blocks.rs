//! The string-data block of the first chain design: a parent hash, an epoch
//! and data, hashed together.
use vstd::prelude::*;
use vstd::utf8::encode_utf8;
use crate::crypto::{Sha256Hash, sha256, sha256_digest};
use crate::encoding::{le_u32, push_bytes, push_u32};

verus! {

/// A block: its parent's hash, its epoch and its data.
#[derive(Debug)]
pub struct Block {
    pub parent_hash: Sha256Hash,
    pub epoch: u32,
    pub data: String,
}

/// The bytes that a block's hash covers: the parent hash, the epoch as a
/// little-endian u32 and the data's UTF-8 bytes.
pub open spec fn block_preimage(parent_hash: Seq<u8>, epoch: u32, data: Seq<char>) -> Seq<u8> {
    parent_hash + le_u32(epoch) + encode_utf8(data)
}

impl Block {
    /// The SHA-256 digest of the block's fields (see `block_preimage`).
    pub fn hash(&self) -> (h: Sha256Hash)
        ensures
            h@ == sha256_digest(block_preimage(self.parent_hash@, self.epoch, self.data@)),
    {
        let mut preimage: Vec<u8> = Vec::new();
        push_bytes(&mut preimage, self.parent_hash.as_slice());
        push_u32(&mut preimage, self.epoch);
        push_bytes(&mut preimage, self.data.as_str().as_bytes());
        assert(preimage@ =~= block_preimage(self.parent_hash@, self.epoch, self.data@));
        sha256(preimage.as_slice())
    }
}

} // verus!
