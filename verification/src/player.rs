//! The player of the first Streamlet design: it keeps the chains it has
//! seen, notarizes chains whose blocks carry enough votes, and finalizes the
//! middle of three blocks with consecutive epochs into its log.
use vstd::prelude::*;
use vstd::utf8::encode_utf8;
use crate::crypto::{Sha256Hash, Signature, sha256, sha256_digest};
use crate::messages::MessageKind;

verus! {

/// A block of this design: epoch, hash, parent hash, data, the voters'
/// names and a nonce.
#[derive(Debug)]
pub struct Block {
    pub epoch: i64,
    pub hash: Sha256Hash,
    pub parent_hash: Sha256Hash,
    pub data: String,
    pub votes: Vec<String>,
    pub nonce: u64,
}

/// What a block holds, as mathematical values.
pub struct BlockView {
    pub epoch: i64,
    pub hash: Seq<u8>,
    pub parent_hash: Seq<u8>,
    pub data: Seq<char>,
    pub votes: Seq<Seq<char>>,
    pub nonce: u64,
}

impl View for Block {
    type V = BlockView;

    open spec fn view(&self) -> BlockView {
        BlockView {
            epoch: self.epoch,
            hash: self.hash@,
            parent_hash: self.parent_hash@,
            data: self.data@,
            votes: self.votes@.map_values(|v: String| v@),
            nonce: self.nonce,
        }
    }
}

/// A chain of blocks.
#[derive(Debug)]
pub struct LocalChain {
    pub blocks: Vec<Block>,
}

impl View for LocalChain {
    type V = Seq<BlockView>;

    open spec fn view(&self) -> Seq<BlockView> {
        self.blocks@.map_values(|b: Block| b@)
    }
}

/// What a vote message carries.
#[derive(Debug)]
pub enum MessagePayload {
    Block(Block),
}

/// A vote or proposal on a block.
#[derive(Debug)]
pub struct Message {
    pub payload: MessagePayload,
    pub kind: MessageKind,
    pub nonce: u32,
    pub signatures: Vec<Signature>,
}

/// A copy of a list of strings.
fn copy_strings(v: &Vec<String>) -> (res: Vec<String>)
    ensures
        res@.map_values(|s: String| s@) == v@.map_values(|s: String| s@),
{
    let mut out: Vec<String> = Vec::new();
    let mut i: usize = 0;
    while i < v.len()
        invariant
            i <= v@.len(),
            out@.map_values(|s: String| s@) == v@.take(i as int).map_values(|s: String| s@),
        decreases v@.len() - i,
    {
        out.push(v[i].clone());
        assert(v@.take(i + 1).map_values(|s: String| s@) =~= v@.take(i as int).map_values(|s: String| s@).push(
            v@[i as int]@,
        ));
        assert(out@.map_values(|s: String| s@) =~= v@.take(i + 1).map_values(|s: String| s@));
        i = i + 1;
    }
    assert(v@.take(i as int) =~= v@);
    out
}

impl Block {
    /// A copy of the block.
    pub fn copy(&self) -> (b: Block)
        ensures
            b@ == self@,
    {
        Block {
            epoch: self.epoch,
            hash: self.hash,
            parent_hash: self.parent_hash,
            data: self.data.clone(),
            votes: copy_strings(&self.votes),
            nonce: self.nonce,
        }
    }

    /// A block of epoch 0 holding `data`, hashed over it, with no parent,
    /// votes or nonce.
    pub fn test_block(data: &String) -> (b: Block)
        ensures
            b.epoch == 0,
            b.hash@ == sha256_digest(encode_utf8(data@)),
            b.data@ == data@,
            b.votes@.len() == 0,
            b.nonce == 0,
    {
        Block {
            epoch: 0,
            hash: sha256(data.as_str().as_bytes()),
            parent_hash: [0u8; 32],
            data: data.clone(),
            votes: Vec::new(),
            nonce: 0,
        }
    }
}

/// `block` extends `parent`: it names the parent's hash.
pub open spec fn extends(block: BlockView, parent: BlockView) -> bool {
    block.parent_hash == parent.hash
}

impl LocalChain {
    /// A copy of the chain.
    pub fn copy(&self) -> (c: LocalChain)
        ensures
            c@ == self@,
    {
        let mut out: Vec<Block> = Vec::new();
        let mut i: usize = 0;
        while i < self.blocks.len()
            invariant
                i <= self.blocks@.len(),
                out@.map_values(|b: Block| b@) == self.blocks@.take(i as int).map_values(|b: Block| b@),
            decreases self.blocks@.len() - i,
        {
            out.push(self.blocks[i].copy());
            assert(self.blocks@.take(i + 1).map_values(|b: Block| b@) =~= self.blocks@.take(i as int).map_values(
                |b: Block| b@,
            ).push(self.blocks@[i as int]@));
            assert(out@.map_values(|b: Block| b@) =~= self.blocks@.take(i + 1).map_values(|b: Block| b@));
            i = i + 1;
        }
        assert(self.blocks@.take(i as int) =~= self.blocks@);
        LocalChain { blocks: out }
    }

    /// Appends a block.
    pub fn append_block(&mut self, block: Block)
        ensures
            final(self)@ == old(self)@.push(block@),
    {
        self.blocks.push(block);
        assert(self@ =~= old(self)@.push(block@));
    }

    /// Whether `block` names `parent_block`'s hash as its parent.
    pub fn validate_block(block: &Block, parent_block: &Block) -> (ok: bool)
        ensures
            ok == extends(block@, parent_block@),
    {
        crate::crypto::hash_equal(&block.parent_hash, &parent_block.hash)
    }
}

/// Every block after the first extends the block before it.
pub open spec fn chain_valid(c: Seq<BlockView>) -> bool {
    forall|i: int| 1 <= i < c.len() ==> extends(#[trigger] c[i], c[i - 1])
}

/// The epochs of the chain strictly increase.
pub open spec fn epochs_increase(c: Seq<BlockView>) -> bool {
    forall|i: int, j: int| 0 <= i < j < c.len() ==> c[i].epoch < c[j].epoch
}

/// A participant: whether it leads, its keys, the number of players, the
/// chains it has seen and notarized, its longest notarized chain, the data
/// it would propose, and its finalized log.
#[derive(Debug)]
pub struct Player {
    pub is_leader: bool,
    pub public_key: String,
    pub private_key: String,
    pub player_pool_size: i64,
    pub viewed_chains: Vec<LocalChain>,
    pub notarized_chains: Vec<LocalChain>,
    pub longest_notarized_chain: LocalChain,
    pub unconfirmed_pending_transactions: String,
    pub finalized_log: LocalChain,
}

/// The chains' contents.
pub open spec fn chains_view(v: Seq<LocalChain>) -> Seq<Seq<BlockView>> {
    v.map_values(|c: LocalChain| c@)
}

impl Player {
    /// A block carries enough votes: at least half the number of players
    /// (rounded down).
    pub open spec fn notarized(&self, b: BlockView) -> bool {
        b.votes.len() >= self.player_pool_size / 2
    }

    /// Records a chain as notarized.
    pub fn observe_chain(&mut self, chain: LocalChain)
        ensures
            chains_view(final(self).notarized_chains@) == chains_view(old(self).notarized_chains@).push(chain@),
            final(self).finalized_log@ == old(self).finalized_log@,
            final(self).longest_notarized_chain@ == old(self).longest_notarized_chain@,
    {
        let ghost c = chain@;
        self.notarized_chains.push(chain);
        assert(chains_view(self.notarized_chains@) =~= chains_view(old(self).notarized_chains@).push(c));
    }

    /// Whether every block after the first extends the block before it.
    pub fn is_chain_valid(chain: LocalChain) -> (ok: bool)
        ensures
            ok == chain_valid(chain@),
    {
        let mut i: usize = 1;
        while i < chain.blocks.len()
            invariant
                1 <= i,
                forall|j: int| 1 <= j < i && j < chain.blocks@.len() ==> extends(
                    #[trigger] chain@[j],
                    chain@[j - 1],
                ),
            decreases chain.blocks@.len() - i,
        {
            if !LocalChain::validate_block(&chain.blocks[i], &chain.blocks[i - 1]) {
                assert(!extends(chain@[i as int], chain@[i - 1]));
                return false;
            }
            i = i + 1;
        }
        true
    }

    /// A block of `epoch` on `parent_hash` that holds the pending data and is
    /// hashed over it, with no votes.
    pub fn propose(self, epoch: i64, nonce: u64, parent_hash: Sha256Hash) -> (b: Block)
        ensures
            b.epoch == epoch,
            b.hash@ == sha256_digest(encode_utf8(self.unconfirmed_pending_transactions@)),
            b.parent_hash == parent_hash,
            b.data@ == self.unconfirmed_pending_transactions@,
            b.votes@.len() == 0,
            b.nonce == nonce,
    {
        let hash = sha256(self.unconfirmed_pending_transactions.as_str().as_bytes());
        Block {
            epoch,
            hash,
            parent_hash,
            data: self.unconfirmed_pending_transactions.clone(),
            votes: Vec::new(),
            nonce,
        }
    }

    /// A vote message on `block`: nonce 0 and no signatures yet.
    pub fn vote(&self, block: Block) -> (m: Message)
        ensures
            m.payload == MessagePayload::Block(block),
            m.kind == MessageKind::Vote,
            m.nonce == 0,
            m.signatures@.len() == 0,
    {
        Message { payload: MessagePayload::Block(block), kind: MessageKind::Vote, nonce: 0, signatures: Vec::new() }
    }

    /// Whether the block carries at least half as many votes as there are players.
    pub fn is_notarized_block(&self, block: &Block) -> (ok: bool)
        ensures
            ok == self.notarized(block@),
    {
        let n = block.votes.len();
        if n as u128 > i64::MAX as u128 {
            return true;
        }
        (n as i64) >= self.player_pool_size / 2
    }

    /// Notarizes a chain whose blocks after the first all carry enough
    /// votes: it joins the notarized chains and becomes the longest one when
    /// it is at least as long. Returns whether it was notarized.
    pub fn notarize_chain(&mut self, chain: LocalChain) -> (ok: bool)
        ensures
            ok == (forall|i: int| 1 <= i < chain@.len() ==> old(self).notarized(#[trigger] chain@[i])),
            ok ==> chains_view(final(self).notarized_chains@) == chains_view(old(self).notarized_chains@).push(
                chain@,
            ),
            ok && chain@.len() >= old(self).longest_notarized_chain@.len() ==> final(self).longest_notarized_chain@
                == chain@,
            !(ok && chain@.len() >= old(self).longest_notarized_chain@.len())
                ==> final(self).longest_notarized_chain@ == old(self).longest_notarized_chain@,
            !ok ==> chains_view(final(self).notarized_chains@) == chains_view(old(self).notarized_chains@),
            final(self).finalized_log@ == old(self).finalized_log@,
            final(self).player_pool_size == old(self).player_pool_size,
    {
        let mut i: usize = 1;
        while i < chain.blocks.len()
            invariant
                1 <= i,
                forall|j: int| 1 <= j < i && j < chain.blocks@.len() ==> self.notarized(#[trigger] chain@[j]),
            decreases chain.blocks@.len() - i,
        {
            if !self.is_notarized_block(&chain.blocks[i]) {
                assert(!self.notarized(chain@[i as int]));
                return false;
            }
            i = i + 1;
        }
        let len = chain.blocks.len();
        let copy = chain.copy();
        let ghost c = chain@;
        self.notarized_chains.push(chain);
        assert(chains_view(self.notarized_chains@) =~= chains_view(old(self).notarized_chains@).push(c));
        if len >= self.longest_notarized_chain.blocks.len() {
            self.longest_notarized_chain = copy;
        }
        true
    }

    /// Finalizes from a notarized chain of at least four blocks whose last
    /// three carry consecutive epochs: the first two of those three join the
    /// log, each only if its epoch is past the log's newest epoch (an empty
    /// log counts as epoch 0).
    pub fn finalize(&mut self, notarized_chain: LocalChain)
        ensures
            final(self).notarized_chains == old(self).notarized_chains,
            final(self).longest_notarized_chain == old(self).longest_notarized_chain,
            final(self).player_pool_size == old(self).player_pool_size,
            ({
                let c = notarized_chain@;
                let n = c.len() as int;
                let log = old(self).finalized_log@;
                let last = if log.len() > 0 { log.last().epoch as int } else { 0 };
                if n >= 4 && c[n - 1].epoch == c[n - 2].epoch + 1 && c[n - 2].epoch == c[n - 3].epoch + 1 {
                    if last < c[n - 3].epoch {
                        final(self).finalized_log@ == log.push(c[n - 3]).push(c[n - 2])
                    } else if last < c[n - 2].epoch {
                        final(self).finalized_log@ == log.push(c[n - 2])
                    } else {
                        final(self).finalized_log@ == log
                    }
                } else {
                    final(self).finalized_log@ == log
                }
            }),
            epochs_increase(old(self).finalized_log@) ==> epochs_increase(final(self).finalized_log@),
    {
        let ghost c = notarized_chain@;
        let i = notarized_chain.blocks.len();
        if i < 4 {
            return;
        }
        let newest = &notarized_chain.blocks[i - 1];
        let commit_2 = &notarized_chain.blocks[i - 2];
        let commit_1 = &notarized_chain.blocks[i - 3];
        assert(c[i - 1] == newest@ && c[i - 2] == commit_2@ && c[i - 3] == commit_1@);
        if commit_2.epoch < i64::MAX && newest.epoch == commit_2.epoch + 1 && commit_1.epoch < i64::MAX
            && commit_2.epoch == commit_1.epoch + 1 {
            let last_epoch: i64 = if self.finalized_log.blocks.len() > 0 {
                self.finalized_log.blocks[self.finalized_log.blocks.len() - 1].epoch
            } else {
                0
            };
            assert(self.finalized_log@.len() > 0 ==> last_epoch == self.finalized_log@.last().epoch);
            if last_epoch < commit_1.epoch {
                let b1 = commit_1.copy();
                let b2 = commit_2.copy();
                self.finalized_log.append_block(b1);
                self.finalized_log.append_block(b2);
            } else if last_epoch < commit_2.epoch {
                let b2 = commit_2.copy();
                self.finalized_log.append_block(b2);
            }
        }
    }
}

} // verus!
