//! A chain of signed blocks that starts with the genesis block.
use vstd::prelude::*;
use crate::blockchain::block::{Block, SignedBlock, SignedBlockModel, BlockModel, block_hash, sigs_view};
use crate::crypto::{Signature, sha256, sha256_digest};
use crate::encoding::push_bytes;

verus! {

/// What every chain can do. A chain is a sequence of blocks; its first block
/// is the genesis block.
pub trait Chain: Sized {
    /// The number of blocks in the chain.
    spec fn chain_len(&self) -> nat;

    /// A chain that holds the genesis block alone.
    fn new() -> Self;

    /// Appends a block with its signatures.
    fn append_block(&mut self, block: Block, signatures: Vec<Signature>);

    /// Whether `block` extends `parent_block`.
    fn validate_block(block: &Block, parent_block: &Block) -> bool;

    /// Nothing to do: blocks are finalized by copying a notarized chain.
    fn finalize_block();

    /// The last block and its signatures.
    fn head(&self) -> (&Block, &Vec<Signature>)
        requires
            self.chain_len() > 0,
    ;

    /// The number of blocks.
    fn length(&self) -> usize;

    /// A copy of the blocks at heights `0..=height`.
    fn copy_up_to_height(&self, height: u64) -> Self
        requires
            height < self.chain_len(),
    ;
}

/// A chain of signed blocks held in memory.
#[derive(Debug)]
pub struct LocalChain {
    pub blocks: Vec<SignedBlock>,
}

impl View for LocalChain {
    type V = Seq<SignedBlockModel>;

    open spec fn view(&self) -> Seq<SignedBlockModel> {
        self.blocks@.map_values(|b: SignedBlock| b@)
    }
}

/// The payload of the genesis block: the bytes of "genesis payload".
pub open spec fn genesis_payload() -> Seq<u8> {
    vstd::utf8::encode_utf8("genesis payload"@)
}

/// The parent hash of the genesis block: the digest of the bytes of "genesis".
pub open spec fn genesis_parent_hash() -> Seq<u8> {
    sha256_digest(vstd::utf8::encode_utf8("genesis"@))
}

/// The genesis block: epoch, height and nonce 0.
pub open spec fn genesis_block() -> BlockModel {
    BlockModel {
        epoch: 0,
        hash: block_hash(genesis_parent_hash(), 0, genesis_payload(), 0),
        parent_hash: genesis_parent_hash(),
        data: genesis_payload(),
        height: 0,
        nonce: 0,
    }
}

/// The genesis block with no signatures.
pub open spec fn genesis_signed() -> SignedBlockModel {
    SignedBlockModel { block: genesis_block(), signatures: Seq::empty() }
}

impl LocalChain {
    /// Appends the genesis block and returns a copy of it.
    fn genesis(&mut self) -> (g: Block)
        ensures
            g@ == genesis_block(),
            final(self)@ == old(self)@.push(genesis_signed()),
    {
        let parent = sha256("genesis".as_bytes());
        let mut payload: Vec<u8> = Vec::new();
        push_bytes(&mut payload, "genesis payload".as_bytes());
        let genesis_block = Block::new(0, parent, payload, 0, 0);
        let copy = genesis_block.clone();
        self.blocks.push(SignedBlock { block: genesis_block, signatures: Vec::new() });
        proof {
            assert(sigs_view(Seq::<Signature>::empty()) =~= Seq::<Seq<u8>>::empty());
            assert(self@ =~= old(self)@.push(genesis_signed()));
        }
        copy
    }
}

impl Clone for LocalChain {
    /// A copy of this chain.
    fn clone(&self) -> (res: LocalChain)
        ensures
            res@ == self@,
    {
        let mut out: Vec<SignedBlock> = Vec::new();
        let mut i: usize = 0;
        while i < self.blocks.len()
            invariant
                i <= self.blocks@.len(),
                out@.len() == i,
                forall|j: int| 0 <= j < i ==> (#[trigger] out@[j])@ == self.blocks@[j]@,
            decreases self.blocks@.len() - i,
        {
            out.push(self.blocks[i].clone());
            i = i + 1;
        }
        let res = LocalChain { blocks: out };
        assert(res@ =~= self@);
        res
    }
}

impl Chain for LocalChain {
    open spec fn chain_len(&self) -> nat {
        self.blocks@.len()
    }

    fn new() -> (chain: LocalChain)
        ensures
            chain@ == seq![genesis_signed()],
    {
        let mut chain = LocalChain { blocks: Vec::new() };
        chain.genesis();
        assert(chain@ =~= seq![genesis_signed()]);
        chain
    }

    fn append_block(&mut self, block: Block, signatures: Vec<Signature>)
        ensures
            final(self)@ == old(self)@.push(
                SignedBlockModel { block: block@, signatures: sigs_view(signatures@) },
            ),
    {
        self.blocks.push(SignedBlock { block, signatures });
        assert(self@ =~= old(self)@.push(
            SignedBlockModel { block: block@, signatures: sigs_view(signatures@) },
        ));
    }

    fn validate_block(block: &Block, parent_block: &Block) -> (ok: bool)
        ensures
            ok == (block.parent_hash@ == parent_block.hash@),
    {
        crate::crypto::hash_equal(&block.parent_hash, &parent_block.hash)
    }

    fn finalize_block() {
    }

    fn head(&self) -> (h: (&Block, &Vec<Signature>))
        ensures
            h.0@ == self@.last().block,
            *h.0 == self.blocks@.last().block,
            sigs_view(h.1@) == self@.last().signatures,
    {
        let last = &self.blocks[self.blocks.len() - 1];
        (&last.block, &last.signatures)
    }

    fn length(&self) -> (n: usize)
        ensures
            n == self@.len(),
    {
        self.blocks.len()
    }

    fn copy_up_to_height(&self, height: u64) -> (c: LocalChain)
        ensures
            c@ == self@.take(height as int + 1),
    {
        let n = self.blocks.len();
        assert(height < n);
        let copy_idx: usize = (height as usize) + 1;
        assert(copy_idx == height + 1);
        let mut out: Vec<SignedBlock> = Vec::new();
        let mut i: usize = 0;
        while i < copy_idx
            invariant
                copy_idx <= self.blocks@.len(),
                i <= copy_idx,
                out@.len() == i,
                forall|j: int| 0 <= j < i ==> (#[trigger] out@[j])@ == self.blocks@[j]@,
            decreases copy_idx - i,
        {
            out.push(self.blocks[i].clone());
            i = i + 1;
        }
        let c = LocalChain { blocks: out };
        assert forall|j: int| 0 <= j < c@.len() implies c@[j] == self@.take(height as int + 1)[j] by {
            assert(out@[j]@ == self.blocks@[j]@);
        }
        assert(c@ =~= self@.take(height as int + 1));
        c
    }
}

} // verus!
