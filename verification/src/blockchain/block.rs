//! The block that Streamlet nodes propose, vote on and chain together.
use vstd::prelude::*;
use crate::crypto::{Sha256Hash, Signature, PublicKey, sha256, sha256_digest};
use crate::encoding::{le_u64, push_bytes, push_u64};

verus! {

/// What a block holds, as mathematical values.
pub struct BlockModel {
    pub epoch: u64,
    pub hash: Seq<u8>,
    pub parent_hash: Seq<u8>,
    pub data: Seq<u8>,
    pub height: u64,
    pub nonce: u64,
}

/// A block with the signatures that notarized it.
pub struct SignedBlockModel {
    pub block: BlockModel,
    pub signatures: Seq<Seq<u8>>,
}

/// A proposed block: its epoch, its own hash, its parent's hash, its payload,
/// its height in the chain and a nonce.
#[derive(Debug)]
pub struct Block {
    pub epoch: u64,
    pub hash: Sha256Hash,
    pub parent_hash: Sha256Hash,
    pub data: Vec<u8>,
    pub height: u64,
    pub nonce: u64,
}

/// A block together with the signatures collected on it.
#[derive(Debug)]
pub struct SignedBlock {
    pub block: Block,
    pub signatures: Vec<Signature>,
}

impl View for Signature {
    type V = Seq<u8>;

    open spec fn view(&self) -> Seq<u8> {
        self.bytes@
    }
}

impl View for PublicKey {
    type V = Seq<u8>;

    open spec fn view(&self) -> Seq<u8> {
        self.bytes@
    }
}

/// The byte strings of a list of signatures.
pub open spec fn sigs_view(sigs: Seq<Signature>) -> Seq<Seq<u8>> {
    sigs.map_values(|s: Signature| s@)
}

impl View for Block {
    type V = BlockModel;

    open spec fn view(&self) -> BlockModel {
        BlockModel {
            epoch: self.epoch,
            hash: self.hash@,
            parent_hash: self.parent_hash@,
            data: self.data@,
            height: self.height,
            nonce: self.nonce,
        }
    }
}

impl View for SignedBlock {
    type V = SignedBlockModel;

    open spec fn view(&self) -> SignedBlockModel {
        SignedBlockModel { block: self.block@, signatures: sigs_view(self.signatures@) }
    }
}

/// The bytes that a block's hash is computed over: the parent's hash, the
/// epoch, the payload and the nonce, in that order.
pub open spec fn block_preimage(parent_hash: Seq<u8>, epoch: u64, data: Seq<u8>, nonce: u64) -> Seq<u8> {
    parent_hash + le_u64(epoch) + data + le_u64(nonce)
}

/// The hash that a block with these fields carries.
pub open spec fn block_hash(parent_hash: Seq<u8>, epoch: u64, data: Seq<u8>, nonce: u64) -> Seq<u8> {
    sha256_digest(block_preimage(parent_hash, epoch, data, nonce))
}

/// The parent hash of the test block: the digest of the bytes of "hello world".
pub open spec fn test_parent_hash() -> Seq<u8> {
    sha256_digest(vstd::utf8::encode_utf8("hello world"@))
}

/// A copy of a byte vector.
pub fn copy_bytes(v: &Vec<u8>) -> (res: Vec<u8>)
    ensures
        res@ == v@,
{
    let mut out: Vec<u8> = Vec::new();
    push_bytes(&mut out, v.as_slice());
    out
}

/// A copy of a list of signatures.
pub fn copy_signatures(v: &Vec<Signature>) -> (res: Vec<Signature>)
    ensures
        res@ == v@,
{
    let mut out: Vec<Signature> = Vec::new();
    let mut i: usize = 0;
    while i < v.len()
        invariant
            i <= v@.len(),
            out@ == v@.take(i as int),
        decreases v@.len() - i,
    {
        out.push(v[i]);
        assert(v@.take(i + 1) =~= v@.take(i as int).push(v@[i as int]));
        i = i + 1;
    }
    assert(v@.take(i as int) =~= v@);
    out
}

impl Block {
    /// Makes a block and computes its hash over the parent's hash, the epoch,
    /// the payload and the nonce.
    pub fn new(epoch: u64, parent_hash: Sha256Hash, data: Vec<u8>, height: u64, nonce: u64) -> (b: Block)
        ensures
            b.epoch == epoch,
            b.parent_hash == parent_hash,
            b.data@ == data@,
            b.height == height,
            b.nonce == nonce,
            b.hash@ == block_hash(parent_hash@, epoch, data@, nonce),
    {
        let mut pre: Vec<u8> = Vec::new();
        push_bytes(&mut pre, parent_hash.as_slice());
        push_u64(&mut pre, epoch);
        push_bytes(&mut pre, data.as_slice());
        push_u64(&mut pre, nonce);
        let hash = sha256(pre.as_slice());
        Block { epoch, hash, parent_hash, data, height, nonce }
    }

    /// A block of epoch, height and nonce 0 whose parent hash is the digest of
    /// "hello world".
    pub fn generate_test_block(data: Vec<u8>) -> (b: Block)
        ensures
            b.epoch == 0,
            b.height == 0,
            b.nonce == 0,
            b.data@ == data@,
            b.parent_hash@ == test_parent_hash(),
            b.hash@ == block_hash(test_parent_hash(), 0, data@, 0),
    {
        let parent = sha256("hello world".as_bytes());
        Block::new(0, parent, data, 0, 0)
    }

}

impl Clone for Block {
    /// A copy of this block.
    fn clone(&self) -> (res: Block)
        ensures
            res@ == self@,
            res.hash == self.hash,
            res.parent_hash == self.parent_hash,
    {
        Block {
            epoch: self.epoch,
            hash: self.hash,
            parent_hash: self.parent_hash,
            data: copy_bytes(&self.data),
            height: self.height,
            nonce: self.nonce,
        }
    }
}

impl Clone for SignedBlock {
    /// A copy of this signed block.
    fn clone(&self) -> (res: SignedBlock)
        ensures
            res@ == self@,
            res.block.hash == self.block.hash,
            res.signatures@ == self.signatures@,
    {
        SignedBlock { block: self.block.clone(), signatures: copy_signatures(&self.signatures) }
    }
}

} // verus!
