//! A local chain of id-numbered blocks that starts from a genesis block.
use vstd::prelude::*;
use crate::simple_chain::block::Block;
use crate::simple_chain::utc_now_timestamp;

verus! {

/// The blocks held locally.
#[derive(Debug)]
pub struct LocalChain {
    pub blocks: Vec<Block>,
}

impl LocalChain {
    /// An empty chain.
    pub fn new() -> (c: LocalChain)
        ensures
            c.blocks@.len() == 0,
    {
        LocalChain { blocks: Vec::new() }
    }

    /// Appends the genesis block: id 0, stamped with the current time, hash
    /// "foo", previous hash "nope" and payload "ip addresses: 1,2,3,4,5".
    pub fn genesis(&mut self)
        ensures
            final(self).blocks@.len() == old(self).blocks@.len() + 1,
            final(self).blocks@.drop_last() == old(self).blocks@,
            final(self).blocks@.last().id == 0,
            final(self).blocks@.last().hash@ == "foo"@,
            final(self).blocks@.last().prev_hash@ == "nope"@,
            final(self).blocks@.last().payload@ == "ip addresses: 1,2,3,4,5"@,
    {
        let genesis_block = Block {
            id: 0,
            timestamp: utc_now_timestamp(),
            hash: "foo".to_owned(),
            prev_hash: "nope".to_owned(),
            payload: "ip addresses: 1,2,3,4,5".to_owned(),
        };
        self.blocks.push(genesis_block);
        assert(self.blocks@.drop_last() =~= old(self).blocks@);
    }
}

} // verus!
