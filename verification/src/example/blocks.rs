//! Blocks of the example chain: a hash, string data and the previous
//! block's hash as a string.
use vstd::prelude::*;
use vstd::utf8::encode_utf8;
use crate::crypto::{Sha256Hash, sha256, sha256_digest};
use crate::encoding::push_bytes;

verus! {

/// A block: its hash, its data and the hash of the block before it.
#[derive(Debug)]
pub struct Block {
    pub hash: Sha256Hash,
    pub data: String,
    pub prev_hash: String,
}

impl Block {
    /// A block whose hash is the SHA-256 digest of its data's UTF-8 bytes,
    /// with an empty previous hash.
    pub fn new(data: String) -> (b: Block)
        ensures
            b.hash@ == sha256_digest(encode_utf8(data@)),
            b.data@ == data@,
            b.prev_hash@ == Seq::<char>::empty(),
    {
        let h = sha256(data.as_str().as_bytes());
        Block { hash: h, data, prev_hash: String::new() }
    }

    /// The SHA-256 digest of the block's hash bytes followed by the UTF-8
    /// bytes of its data.
    pub fn hash(&self) -> (h: Sha256Hash)
        ensures
            h@ == sha256_digest(self.hash@ + encode_utf8(self.data@)),
    {
        let mut preimage: Vec<u8> = Vec::new();
        push_bytes(&mut preimage, self.hash.as_slice());
        push_bytes(&mut preimage, self.data.as_str().as_bytes());
        sha256(preimage.as_slice())
    }

    /// Every block is accepted after any other: the example checks nothing yet.
    pub fn validate_block(&self, _prev_block: &Block) -> (ok: bool)
        ensures
            ok,
    {
        true
    }
}

/// The SHA-256 digest of the UTF-8 bytes of `data`.
pub fn hash(data: &String) -> (h: Sha256Hash)
    ensures
        h@ == sha256_digest(encode_utf8(data@)),
{
    sha256(data.as_str().as_bytes())
}

} // verus!
