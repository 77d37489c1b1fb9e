//! A player of the first design: it checks chains block by block.
use vstd::prelude::*;
use crate::simple_chain::blockchain_utils::block::Block;
use crate::simple_chain::blockchain_utils::chain::{Chain, LocalChain, validates};

verus! {

/// A player: whether it leads, its keys and the size of its pool.
#[derive(Debug)]
pub struct Player {
    pub is_leader: bool,
    pub public_key: String,
    pub private_key: String,
    pub player_pool_size: i64,
}

/// Every block after the first is valid after the block before it.
pub open spec fn chain_valid(blocks: Seq<Block>) -> bool {
    forall|i: int| 1 <= i < blocks.len() ==> validates(#[trigger] blocks[i], blocks[i - 1])
}

impl Player {
    /// Nothing to set up yet.
    pub fn new() {
    }

    /// Whether every block after the genesis block is valid after
    /// its predecessor.
    pub fn is_chain_valid(chain: LocalChain) -> (ok: bool)
        ensures
            ok == chain_valid(chain.blocks@),
    {
        let mut i: usize = 1;
        while i < chain.blocks.len()
            invariant
                1 <= i,
                i <= chain.blocks@.len() || chain.blocks@.len() == 0,
                forall|j: int| 1 <= j < i && j < chain.blocks@.len() ==> validates(
                    #[trigger] chain.blocks@[j],
                    chain.blocks@[j - 1],
                ),
            decreases chain.blocks@.len() - i,
        {
            if !LocalChain::validate_block(&chain.blocks[i], &chain.blocks[i - 1]) {
                return false;
            }
            i = i + 1;
        }
        true
    }

    /// Nothing to do yet.
    pub fn finalize() {
    }

    /// Records the player's public key as a vote on `block`, which is then
    /// dropped: nothing outside changes.
    pub fn vote(self, block: Block) {
        let mut block = block;
        block.votes.push(self.public_key);
    }
}

} // verus!
