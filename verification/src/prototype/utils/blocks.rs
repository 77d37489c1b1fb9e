//! A block of the sketch: a hash and a string of data.
use vstd::prelude::*;
use vstd::utf8::encode_utf8;
use crate::crypto::{Sha256Hash, sha256, sha256_digest};
use crate::encoding::push_bytes;

verus! {

/// A block: the hash it links to and its data.
#[derive(Debug)]
pub struct Block {
    pub hash: Sha256Hash,
    pub data: String,
}

impl Block {
    /// The SHA-256 digest of the block's hash bytes followed by the UTF-8
    /// bytes of its data.
    pub fn hash(&self) -> (h: Sha256Hash)
        ensures
            h@ == sha256_digest(self.hash@ + encode_utf8(self.data@)),
    {
        let mut preimage: Vec<u8> = Vec::new();
        push_bytes(&mut preimage, self.hash.as_slice());
        push_bytes(&mut preimage, self.data.as_str().as_bytes());
        sha256(preimage.as_slice())
    }
}

} // verus!
