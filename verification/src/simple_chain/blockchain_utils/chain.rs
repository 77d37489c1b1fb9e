//! The chain trait of the first design and a local chain of vote-collecting
//! blocks.
use vstd::prelude::*;
use crate::simple_chain::blockchain_utils::block::Block;
use crate::simple_chain::utc_now_timestamp;
use crate::text::str_equal;

verus! {

/// What a chain can do.
pub trait Chain: Sized {
    /// An empty chain.
    fn new() -> Self;

    /// Appends the genesis block.
    fn genesis(&mut self);

    /// Appends a block.
    fn append_block(&mut self, block: Block);

    /// Whether `block` may follow `parent_block`.
    fn validate_block(block: &Block, parent_block: &Block) -> bool;

    /// Nothing to do yet.
    fn finalize_block();
}

/// The blocks held locally.
#[derive(Debug)]
pub struct LocalChain {
    pub blocks: Vec<Block>,
}

/// `block` is accepted after `parent` when its parent hash differs from the
/// parent's hash.
pub open spec fn validates(block: Block, parent: Block) -> bool {
    block.parent_hash@ != parent.hash@
}

impl Chain for LocalChain {
    /// An empty chain.
    fn new() -> (c: LocalChain)
        ensures
            c.blocks@.len() == 0,
    {
        LocalChain { blocks: Vec::new() }
    }

    /// Appends the genesis block: epoch 0, stamped with the current time,
    /// hash "genesis hash", parent hash "n/a", payload "genesis payload",
    /// no votes and nonce 0.
    fn genesis(&mut self)
        ensures
            final(self).blocks@.len() == old(self).blocks@.len() + 1,
            final(self).blocks@.drop_last() == old(self).blocks@,
            final(self).blocks@.last().epoch == 0,
            final(self).blocks@.last().hash@ == "genesis hash"@,
            final(self).blocks@.last().parent_hash@ == "n/a"@,
            final(self).blocks@.last().payload@ == "genesis payload"@,
            final(self).blocks@.last().votes@.len() == 0,
            final(self).blocks@.last().nonce == 0,
    {
        let genesis_block = Block {
            timestamp: utc_now_timestamp(),
            epoch: 0,
            hash: "genesis hash".to_owned(),
            parent_hash: "n/a".to_owned(),
            payload: "genesis payload".to_owned(),
            votes: Vec::new(),
            nonce: 0,
        };
        self.blocks.push(genesis_block);
        assert(self.blocks@.drop_last() =~= old(self).blocks@);
    }

    /// Appends `block`.
    fn append_block(&mut self, block: Block)
        ensures
            final(self).blocks@ == old(self).blocks@.push(block),
    {
        self.blocks.push(block);
    }

    /// Whether `block`'s parent hash differs from `parent_block`'s hash.
    fn validate_block(block: &Block, parent_block: &Block) -> (ok: bool)
        ensures
            ok == validates(*block, *parent_block),
    {
        !str_equal(block.parent_hash.as_str(), parent_block.hash.as_str())
    }

    /// Nothing to do yet.
    fn finalize_block() {
    }
}

} // verus!
