//! The manager of a node's notarized chains and its finalized chain.
//!
//! Checking that a block is notarized is the caller's task; the manager keeps
//! the chains that notarized blocks extend, keeps them ordered from longest to
//! shortest, and finalizes a prefix once three adjacent blocks carry
//! consecutive epochs.
use vstd::prelude::*;
use crate::blockchain::block::{Block, SignedBlockModel, sigs_view};
use crate::blockchain::chain::{Chain, LocalChain, genesis_signed};
use crate::crypto::Signature;

verus! {

/// The views of a list of chains.
pub open spec fn chains_view(v: Seq<LocalChain>) -> Seq<Seq<SignedBlockModel>> {
    v.map_values(|c: LocalChain| c@)
}

/// Inserts `c` before the first chain that is strictly shorter than it.
pub open spec fn insert_by_len(s: Seq<Seq<SignedBlockModel>>, c: Seq<SignedBlockModel>) -> Seq<Seq<SignedBlockModel>>
    decreases s.len(),
{
    if s.len() == 0 {
        seq![c]
    } else if s[0].len() < c.len() {
        seq![c] + s
    } else {
        seq![s[0]] + insert_by_len(s.drop_first(), c)
    }
}

/// The chains ordered from longest to shortest; chains of equal length keep
/// their order (a stable sort).
pub open spec fn sort_by_len_desc(s: Seq<Seq<SignedBlockModel>>) -> Seq<Seq<SignedBlockModel>>
    decreases s.len(),
{
    if s.len() == 0 {
        s
    } else {
        insert_by_len(sort_by_len_desc(s.drop_last()), s.last())
    }
}

/// The chains whose length is `n`, in their order.
pub open spec fn keep_of_len(s: Seq<Seq<SignedBlockModel>>, n: nat) -> Seq<Seq<SignedBlockModel>>
    decreases s.len(),
{
    if s.len() == 0 {
        s
    } else if s.last().len() == n {
        keep_of_len(s.drop_last(), n).push(s.last())
    } else {
        keep_of_len(s.drop_last(), n)
    }
}

/// The last three blocks of `c` carry consecutive epochs.
pub open spec fn ends_in_consecutive_epochs(c: Seq<SignedBlockModel>) -> bool {
    &&& c.len() >= 3
    &&& c[c.len() - 1].block.epoch == c[c.len() - 2].block.epoch + 1
    &&& c[c.len() - 2].block.epoch == c[c.len() - 3].block.epoch + 1
}

/// The height recorded in the second-newest block of `c`: the finalized chain
/// is copied up to it.
pub open spec fn commit_height(c: Seq<SignedBlockModel>) -> u64 {
    c[c.len() - 2].block.height
}

/// Whether finalizing `c` copies a prefix that `c` actually holds.
pub open spec fn commit_in_bounds(c: Seq<SignedBlockModel>) -> bool {
    ends_in_consecutive_epochs(c) ==> commit_height(c) < c.len()
}

/// The chains once block `sb` is appended to chain `idx` and the chains are
/// ordered again.
pub open spec fn chains_after_append(
    chains: Seq<Seq<SignedBlockModel>>,
    idx: int,
    sb: SignedBlockModel,
) -> Seq<Seq<SignedBlockModel>> {
    sort_by_len_desc(chains.update(idx, chains[idx].push(sb)))
}


/// What appending `block` with `sigs` to chain `idx` makes of the manager
/// `m0`: the chains are `chains_after_append`, the longest length grows to the
/// appended chain's length if that is longer, and the chain the block was
/// appended to is finalized up to its commit height when its last three
/// epochs are consecutive (the finalized chain stays as it was otherwise).
pub open spec fn add_to_chain_post(
    m0: BlockchainManager,
    m1: BlockchainManager,
    block: Block,
    sigs: Seq<Signature>,
    idx: int,
) -> bool {
    let grown = m0.notarized()[idx].push(signed_model(block, sigs));
    let sorted = chains_after_append(m0.notarized(), idx, signed_model(block, sigs));
    &&& m1.notarized() == sorted
    &&& m1.longest_notarized_chain_length == if grown.len() > m0.longest_notarized_chain_length {
        grown.len() as int
    } else {
        m0.longest_notarized_chain_length as int
    }
    &&& ends_in_consecutive_epochs(grown) ==> m1.finalized_chain@ == grown.take(commit_height(grown) as int + 1)
    &&& ends_in_consecutive_epochs(grown) ==> m1.num_finalizations == if m0.num_finalizations < usize::MAX {
        m0.num_finalizations + 1
    } else {
        m0.num_finalizations as int
    }
    &&& !ends_in_consecutive_epochs(grown) ==> m1.finalized_chain@ == m0.finalized_chain@
    &&& !ends_in_consecutive_epochs(grown) ==> m1.num_finalizations == m0.num_finalizations
}

/// Chain `i` is the first whose newest block has hash `parent`.
pub open spec fn first_head_index(n: Seq<Seq<SignedBlockModel>>, parent: Seq<u8>, i: int) -> bool {
    &&& 0 <= i < n.len()
    &&& n[i].last().block.hash == parent
    &&& forall|k: int| 0 <= k < i ==> (#[trigger] n[k]).last().block.hash != parent
}

/// Whether a chain's commit checks pass: see `commit_in_bounds`.
fn commit_in_bounds_exec(c: &LocalChain) -> (r: bool)
    ensures
        r == commit_in_bounds(c@),
{
    let n = c.length();
    if n < 3 {
        return true;
    }
    let newest = &c.blocks[n - 1].block;
    let commit_2 = &c.blocks[n - 2].block;
    let commit_1 = &c.blocks[n - 3].block;
    assert(c@[n - 1].block == newest@);
    assert(c@[n - 2].block == commit_2@);
    assert(c@[n - 3].block == commit_1@);
    if commit_2.epoch < u64::MAX && newest.epoch == commit_2.epoch + 1 && commit_1.epoch < u64::MAX
        && commit_2.epoch == commit_1.epoch + 1 {
        (commit_2.height as u128) < (n as u128)
    } else {
        true
    }
}

/// Keeps the notarized chains a node knows of and its finalized chain.
pub struct BlockchainManager {
    pub finalized_chain_length: usize,
    pub finalized_chain: LocalChain,
    pub longest_notarized_chain_length: usize,
    pub num_finalizations: usize,
    pub notarized_chains: Vec<LocalChain>,
}

/// `insert_by_len` puts `c` at the first position whose chain is strictly shorter.
proof fn lemma_insert_by_len(s: Seq<Seq<SignedBlockModel>>, c: Seq<SignedBlockModel>, p: int)
    requires
        0 <= p <= s.len(),
        forall|j: int| 0 <= j < p ==> s[j].len() >= c.len(),
        p < s.len() ==> s[p].len() < c.len(),
    ensures
        insert_by_len(s, c) == s.insert(p, c),
    decreases s.len(),
{
    if s.len() == 0 {
        assert(s.insert(p, c) =~= seq![c]);
    } else if p == 0 {
        assert(s.insert(p, c) =~= seq![c] + s);
    } else {
        lemma_insert_by_len(s.drop_first(), c, p - 1);
        assert(s.insert(p, c) =~= seq![s[0]] + s.drop_first().insert(p - 1, c));
    }
}

/// Sorting keeps the number of chains.
proof fn lemma_sort_len(s: Seq<Seq<SignedBlockModel>>)
    ensures
        sort_by_len_desc(s).len() == s.len(),
    decreases s.len(),
{
    if s.len() > 0 {
        lemma_sort_len(s.drop_last());
        lemma_insert_len(sort_by_len_desc(s.drop_last()), s.last());
    }
}

proof fn lemma_insert_len(s: Seq<Seq<SignedBlockModel>>, c: Seq<SignedBlockModel>)
    ensures
        insert_by_len(s, c).len() == s.len() + 1,
    decreases s.len(),
{
    if s.len() > 0 && s[0].len() >= c.len() {
        lemma_insert_len(s.drop_first(), c);
    }
}

/// Inserting keeps every chain and adds `c`.
proof fn lemma_insert_contents(s: Seq<Seq<SignedBlockModel>>, c: Seq<SignedBlockModel>)
    ensures
        insert_by_len(s, c).to_multiset() == s.to_multiset().insert(c),
    decreases s.len(),
{
    broadcast use vstd::seq_lib::group_to_multiset_ensures;
    if s.len() == 0 {
        assert(insert_by_len(s, c) =~= seq![c]);
        assert(seq![c] =~= Seq::<Seq<SignedBlockModel>>::empty().push(c));
    } else if s[0].len() < c.len() {
        lemma_insert_len(s, c);
        vstd::seq_lib::lemma_multiset_commutative(seq![c], s);
        assert(seq![c] =~= Seq::<Seq<SignedBlockModel>>::empty().push(c));
    } else {
        lemma_insert_contents(s.drop_first(), c);
        vstd::seq_lib::lemma_multiset_commutative(seq![s[0]], insert_by_len(s.drop_first(), c));
        vstd::seq_lib::lemma_multiset_commutative(seq![s[0]], s.drop_first());
        assert(seq![s[0]] + s.drop_first() =~= s);
        assert(seq![s[0]] =~= Seq::<Seq<SignedBlockModel>>::empty().push(s[0]));
    }
}

/// Sorting keeps exactly the chains it was given.
pub proof fn lemma_sort_is_permutation(s: Seq<Seq<SignedBlockModel>>)
    ensures
        sort_by_len_desc(s).to_multiset() == s.to_multiset(),
    decreases s.len(),
{
    broadcast use vstd::seq_lib::group_to_multiset_ensures;
    if s.len() > 0 {
        lemma_sort_is_permutation(s.drop_last());
        lemma_insert_contents(sort_by_len_desc(s.drop_last()), s.last());
        assert(s.drop_last().push(s.last()) =~= s);
    }
}

/// Every chain kept has length `n`, and a chain of length `n` keeps the result non-empty.
proof fn lemma_keep_of_len(s: Seq<Seq<SignedBlockModel>>, n: nat)
    ensures
        forall|j: int| 0 <= j < keep_of_len(s, n).len() ==> (#[trigger] keep_of_len(s, n)[j]).len() == n,
        (exists|j: int| 0 <= j < s.len() && (#[trigger] s[j]).len() == n) ==> keep_of_len(s, n).len() > 0,
        keep_of_len(s, n).len() <= s.len(),
    decreases s.len(),
{
    if s.len() > 0 {
        lemma_keep_of_len(s.drop_last(), n);
        if exists|j: int| 0 <= j < s.len() && (#[trigger] s[j]).len() == n {
            let j = choose|j: int| 0 <= j < s.len() && (#[trigger] s[j]).len() == n;
            if j < s.len() - 1 {
                assert(s.drop_last()[j] == s[j]);
            }
        }
    }
}

/// Every chain in the sorted list was a chain of the input.
proof fn lemma_sort_members(s: Seq<Seq<SignedBlockModel>>, j: int)
    requires
        0 <= j < s.len(),
    ensures
        s.contains(sort_by_len_desc(s)[j]),
{
    lemma_sort_len(s);
    lemma_sort_is_permutation(s);
    broadcast use vstd::seq_lib::group_to_multiset_ensures;
    assert(sort_by_len_desc(s).contains(sort_by_len_desc(s)[j]));
    assert(sort_by_len_desc(s).to_multiset().count(sort_by_len_desc(s)[j]) > 0);
}

/// Inserting into a list ordered from longest to shortest keeps it ordered.
proof fn lemma_insert_keeps_order(s: Seq<Seq<SignedBlockModel>>, c: Seq<SignedBlockModel>)
    requires
        forall|i: int, j: int| 0 <= i < j < s.len() ==> (#[trigger] s[i]).len() >= (#[trigger] s[j]).len(),
    ensures
        forall|i: int, j: int|
            0 <= i < j < insert_by_len(s, c).len() ==> (#[trigger] insert_by_len(s, c)[i]).len() >= (
            #[trigger] insert_by_len(s, c)[j]).len(),
    decreases s.len(),
{
    lemma_insert_len(s, c);
    if s.len() == 0 {
    } else if s[0].len() < c.len() {
        let r = seq![c] + s;
        assert forall|i: int, j: int| 0 <= i < j < r.len() implies (#[trigger] r[i]).len() >= (#[trigger] r[j]).len() by {
            if i == 0 {
                assert(s[0].len() >= s[j - 1].len() || j - 1 == 0);
            }
        }
    } else {
        lemma_insert_keeps_order(s.drop_first(), c);
        let t = insert_by_len(s.drop_first(), c);
        let r = seq![s[0]] + t;
        lemma_insert_len(s.drop_first(), c);
        lemma_insert_members(s.drop_first(), c);
        assert forall|i: int, j: int| 0 <= i < j < r.len() implies (#[trigger] r[i]).len() >= (#[trigger] r[j]).len() by {
            if i == 0 {
                let x = t[j - 1];
                assert(x == c || s.drop_first().contains(x));
                if x != c {
                    let k = choose|k: int| 0 <= k < s.drop_first().len() && s.drop_first()[k] == x;
                    assert(s[0].len() >= s[k + 1].len());
                }
            } else {
                assert(r[i] == t[i - 1]);
                assert(r[j] == t[j - 1]);
            }
        }
    }
}

/// Every chain of an insertion result is the inserted chain or was in the list.
proof fn lemma_insert_members(s: Seq<Seq<SignedBlockModel>>, c: Seq<SignedBlockModel>)
    ensures
        forall|j: int| 0 <= j < insert_by_len(s, c).len() ==> (#[trigger] insert_by_len(s, c)[j]) == c || s.contains(insert_by_len(s, c)[j]),
    decreases s.len(),
{
    lemma_insert_len(s, c);
    if s.len() > 0 && s[0].len() >= c.len() {
        lemma_insert_members(s.drop_first(), c);
        lemma_insert_len(s.drop_first(), c);
        assert forall|j: int| 0 <= j < insert_by_len(s, c).len() implies (#[trigger] insert_by_len(s, c)[j]) == c || s.contains(insert_by_len(s, c)[j]) by {
            if j == 0 {
                assert(s.contains(s[0]));
            } else {
                let x = insert_by_len(s.drop_first(), c)[j - 1];
                assert(insert_by_len(s, c)[j] == x);
                if x != c {
                    let k = choose|k: int| 0 <= k < s.drop_first().len() && s.drop_first()[k] == x;
                    assert(s[k + 1] == x);
                }
            }
        }
    } else if s.len() > 0 {
        assert forall|j: int| 0 <= j < insert_by_len(s, c).len() implies (#[trigger] insert_by_len(s, c)[j]) == c || s.contains(insert_by_len(s, c)[j]) by {
            if j > 0 {
                assert(insert_by_len(s, c)[j] == s[j - 1]);
            }
        }
    }
}

/// The sorted chains run from longest to shortest.
pub proof fn lemma_sort_orders_by_len(s: Seq<Seq<SignedBlockModel>>)
    ensures
        forall|i: int, j: int|
            0 <= i < j < sort_by_len_desc(s).len() ==> (#[trigger] sort_by_len_desc(s)[i]).len() >= (
            #[trigger] sort_by_len_desc(s)[j]).len(),
    decreases s.len(),
{
    if s.len() > 0 {
        lemma_sort_orders_by_len(s.drop_last());
        lemma_insert_keeps_order(sort_by_len_desc(s.drop_last()), s.last());
    }
}

impl BlockchainManager {
    /// The notarized chains, longest first.
    pub open spec fn notarized(&self) -> Seq<Seq<SignedBlockModel>> {
        chains_view(self.notarized_chains@)
    }

    /// Every notarized chain and the finalized chain hold a block, the
    /// finalized length is the finalized chain's length, and some notarized
    /// chain has the longest notarized length.
    pub open spec fn wf(&self) -> bool {
        &&& forall|j: int| 0 <= j < self.notarized().len() ==> (#[trigger] self.notarized()[j]).len() > 0
        &&& self.finalized_chain@.len() > 0
        &&& self.finalized_chain_length == self.finalized_chain@.len()
        &&& exists|j: int|
            0 <= j < self.notarized().len() && (#[trigger] self.notarized()[j]).len()
                == self.longest_notarized_chain_length
    }

    /// What a well-formed manager guarantees to its users.
    pub proof fn lemma_wf(&self)
        requires
            self.wf(),
        ensures
            self.notarized().len() > 0,
            self.longest_notarized_chain_length >= 1,
            self.finalized_chain@.len() > 0,
            self.finalized_chain_length == self.finalized_chain@.len(),
            forall|j: int| 0 <= j < self.notarized().len() ==> (#[trigger] self.notarized()[j]).len() > 0,
    {
        let j = choose|j: int|
            0 <= j < self.notarized().len() && (#[trigger] self.notarized()[j]).len()
                == self.longest_notarized_chain_length;
        assert(self.notarized()[j].len() > 0);
    }

    /// A manager whose finalized chain and single notarized chain hold the
    /// genesis block alone.
    pub fn new() -> (m: BlockchainManager)
        ensures
            m.wf(),
            m.finalized_chain_length == 1,
            m.finalized_chain@ == seq![genesis_signed()],
            m.longest_notarized_chain_length == 1,
            m.num_finalizations == 0,
            m.notarized() == seq![seq![genesis_signed()]],
    {
        let mut chains: Vec<LocalChain> = Vec::new();
        chains.push(LocalChain::new());
        let m = BlockchainManager {
            finalized_chain_length: 1,
            finalized_chain: LocalChain::new(),
            longest_notarized_chain_length: 1,
            num_finalizations: 0,
            notarized_chains: chains,
        };
        assert(m.notarized() =~= seq![seq![genesis_signed()]]);
        assert(m.notarized()[0].len() == 1);
        m
    }

    /// Adds an observed notarized chain (it must hold a block).
    pub fn observe_chain(&mut self, chain: LocalChain)
        requires
            old(self).wf(),
            chain@.len() > 0,
        ensures
            final(self).wf(),
            final(self).notarized() == old(self).notarized().push(chain@),
            final(self).finalized_chain@ == old(self).finalized_chain@,
            final(self).finalized_chain_length == old(self).finalized_chain_length,
            final(self).longest_notarized_chain_length == old(self).longest_notarized_chain_length,
            final(self).num_finalizations == old(self).num_finalizations,
    {
        let ghost old_n = self.notarized();
        self.notarized_chains.push(chain);
        assert(self.notarized() =~= old_n.push(chain@));
        let ghost j = choose|j: int|
            0 <= j < old_n.len() && (#[trigger] old_n[j]).len() == self.longest_notarized_chain_length;
        assert(self.notarized()[j] == old_n[j]);
    }

    /// Whether each block after the genesis block names its predecessor's
    /// hash as its parent hash.
    pub fn is_chain_valid(chain: LocalChain) -> (valid: bool)
        ensures
            valid == (forall|i: int|
                1 <= i < chain@.len() ==> (#[trigger] chain@[i]).block.parent_hash
                    == chain@[i - 1].block.hash),
    {
        let n = chain.length();
        let mut i: usize = 1;
        while i < n
            invariant
                n == chain@.len(),
                1 <= i,
                forall|k: int| 1 <= k < i && k < n ==> (#[trigger] chain@[k]).block.parent_hash
                    == chain@[k - 1].block.hash,
            decreases n - i,
        {
            let first = &chain.blocks[i - 1].block;
            let second = &chain.blocks[i].block;
            if !<LocalChain as Chain>::validate_block(second, first) {
                assert(chain@[i as int].block == chain.blocks@[i as int].block@);
                assert(chain@[i - 1].block == chain.blocks@[i - 1].block@);
                return false;
            }
            assert(chain@[i as int].block == chain.blocks@[i as int].block@);
            assert(chain@[i - 1].block == chain.blocks@[i - 1].block@);
            i = i + 1;
        }
        true
    }

    /// The first notarized chain whose newest block is the new block's
    /// parent, or `None` when no chain ends in it.
    pub fn index_of_ancestor_chain(&mut self, new_block: Block) -> (idx: Option<usize>)
        requires
            old(self).wf(),
        ensures
            *final(self) == *old(self),
            match idx {
                Some(i) => {
                    &&& i < old(self).notarized().len()
                    &&& old(self).notarized()[i as int].last().block.hash == new_block.parent_hash@
                    &&& forall|k: int|
                        0 <= k < i ==> (#[trigger] old(self).notarized()[k]).last().block.hash
                            != new_block.parent_hash@
                },
                None => forall|k: int|
                    0 <= k < old(self).notarized().len() ==> (#[trigger] old(self).notarized()[k]).last().block.hash
                        != new_block.parent_hash@,
            },
    {
        proof {
            self.lemma_wf();
        }
        let mut chain_idx: usize = 0;
        while chain_idx < self.notarized_chains.len()
            invariant
                self.wf(),
                chain_idx <= self.notarized().len(),
                self.notarized().len() == self.notarized_chains@.len(),
                forall|k: int|
                    0 <= k < chain_idx ==> (#[trigger] self.notarized()[k]).last().block.hash
                        != new_block.parent_hash@,
            decreases self.notarized_chains@.len() - chain_idx,
        {
            proof {
                self.lemma_wf();
            }
            assert(self.notarized()[chain_idx as int] == self.notarized_chains@[chain_idx as int]@);
            let (block, _) = self.notarized_chains[chain_idx].head();
            if crate::crypto::hash_equal(&block.hash, &new_block.parent_hash) {
                return Some(chain_idx);
            }
            chain_idx = chain_idx + 1;
        }
        None
    }
}


/// The signed block made of `block` and `signatures`.
pub open spec fn signed_model(block: Block, signatures: Seq<Signature>) -> SignedBlockModel {
    SignedBlockModel { block: block@, signatures: sigs_view(signatures) }
}

/// The views of a list without its first chain.
proof fn lemma_chains_view_front(s: Seq<LocalChain>)
    requires
        s.len() > 0,
    ensures
        chains_view(s)[0] == s[0]@,
        chains_view(s.remove(0)) == chains_view(s).drop_first(),
{
    assert(chains_view(s.remove(0)) =~= chains_view(s).drop_first());
}

/// A chain in a list is still in the list once the list is sorted.
proof fn lemma_sort_keeps(s: Seq<Seq<SignedBlockModel>>, j: int)
    requires
        0 <= j < s.len(),
    ensures
        sort_by_len_desc(s).contains(s[j]),
{
    broadcast use vstd::seq_lib::group_to_multiset_ensures;
    lemma_sort_is_permutation(s);
    assert(s.contains(s[j]));
    assert(s.to_multiset().count(s[j]) > 0);
}

/// The chains ordered from longest to shortest, keeping the order of chains
/// of equal length.
fn sort_chains_by_len(chains: Vec<LocalChain>) -> (res: Vec<LocalChain>)
    ensures
        chains_view(res@) == sort_by_len_desc(chains_view(chains@)),
{
    let ghost orig = chains_view(chains@);
    let mut rest = chains;
    let mut out: Vec<LocalChain> = Vec::new();
    let ghost mut k: int = 0;
    assert(orig.take(0) =~= Seq::<Seq<SignedBlockModel>>::empty());
    assert(chains_view(out@) =~= Seq::<Seq<SignedBlockModel>>::empty());
    while rest.len() > 0
        invariant
            0 <= k <= orig.len(),
            chains_view(rest@) == orig.skip(k),
            chains_view(out@) == sort_by_len_desc(orig.take(k)),
        decreases rest@.len(),
    {
        let ghost before = chains_view(out@);
        let ghost rest_before = rest@;
        proof {
            lemma_chains_view_front(rest_before);
            assert(orig.skip(k)[0] == orig[k]);
        }
        let c = rest.remove(0);
        proof {
            assert(rest@ == rest_before.remove(0));
            assert(orig.skip(k).drop_first() =~= orig.skip(k + 1));
        }
        let c_len = c.length();
        let mut p: usize = 0;
        while p < out.len() && out[p].length() >= c_len
            invariant
                p <= out@.len(),
                c_len == c@.len(),
                chains_view(out@) == before,
                forall|j: int| 0 <= j < p ==> (#[trigger] before[j]).len() >= c@.len(),
            decreases out@.len() - p,
        {
            p = p + 1;
        }
        proof {
            lemma_insert_by_len(before, c@, p as int);
        }
        out.insert(p, c);
        proof {
            assert(chains_view(out@) =~= before.insert(p as int, c@));
            assert(orig.take(k + 1).drop_last() =~= orig.take(k));
            assert(orig.take(k + 1).last() == orig[k]);
            k = k + 1;
        }
    }
    assert(orig.take(k) =~= orig);
    out
}

impl BlockchainManager {
    /// Keeps only the notarized chains whose length is the longest notarized
    /// length.
    fn cleanup_notarized_chains(&mut self)
        requires
            old(self).wf(),
        ensures
            final(self).wf(),
            final(self).notarized() == keep_of_len(
                old(self).notarized(),
                old(self).longest_notarized_chain_length as nat,
            ),
            final(self).finalized_chain@ == old(self).finalized_chain@,
            final(self).finalized_chain_length == old(self).finalized_chain_length,
            final(self).longest_notarized_chain_length == old(self).longest_notarized_chain_length,
            final(self).num_finalizations == old(self).num_finalizations,
    {
        let ghost orig = self.notarized();
        let longest = self.longest_notarized_chain_length;
        let mut rest: Vec<LocalChain> = Vec::new();
        std::mem::swap(&mut rest, &mut self.notarized_chains);
        let mut out: Vec<LocalChain> = Vec::new();
        let ghost mut k: int = 0;
        assert(orig.take(0) =~= Seq::<Seq<SignedBlockModel>>::empty());
        assert(chains_view(out@) =~= Seq::<Seq<SignedBlockModel>>::empty());
        while rest.len() > 0
            invariant
                0 <= k <= orig.len(),
                chains_view(rest@) == orig.skip(k),
                chains_view(out@) == keep_of_len(orig.take(k), longest as nat),
            decreases rest@.len(),
        {
            let ghost before = chains_view(out@);
            let ghost rest_before = rest@;
            proof {
                lemma_chains_view_front(rest_before);
                assert(orig.skip(k)[0] == orig[k]);
            }
            let c = rest.remove(0);
            proof {
                assert(rest@ == rest_before.remove(0));
                assert(orig.skip(k).drop_first() =~= orig.skip(k + 1));
            }
            proof {
                assert(orig.take(k + 1).drop_last() =~= orig.take(k));
                assert(orig.take(k + 1).last() == orig[k]);
            }
            if c.length() == longest {
                out.push(c);
                assert(chains_view(out@) =~= before.push(c@));
            }
            proof {
                k = k + 1;
            }
        }
        assert(orig.take(k) =~= orig);
        self.notarized_chains = out;
        proof {
            lemma_keep_of_len(orig, longest as nat);
            let j = choose|j: int| 0 <= j < orig.len() && (#[trigger] orig[j]).len() == longest;
            assert(orig[j].len() == longest);
            assert(self.notarized()[0].len() == longest);
        }
    }

    /// Finalizes chain `notarized_chain_idx` up to the height of its
    /// second-newest block when its last three blocks carry consecutive epochs.
    fn try_finalize(&mut self, notarized_chain_idx: usize)
        requires
            old(self).wf(),
            notarized_chain_idx < old(self).notarized().len(),
            commit_in_bounds(old(self).notarized()[notarized_chain_idx as int]),
        ensures
            final(self).wf(),
            final(self).notarized() == old(self).notarized(),
            final(self).longest_notarized_chain_length == old(self).longest_notarized_chain_length,
            ({
                let c = old(self).notarized()[notarized_chain_idx as int];
                if ends_in_consecutive_epochs(c) {
                    &&& final(self).finalized_chain@ == c.take(commit_height(c) as int + 1)
                    &&& final(self).num_finalizations == if old(self).num_finalizations < usize::MAX {
                        old(self).num_finalizations + 1
                    } else {
                        old(self).num_finalizations as int
                    }
                } else {
                    &&& final(self).finalized_chain@ == old(self).finalized_chain@
                    &&& final(self).num_finalizations == old(self).num_finalizations
                }
            }),
    {
        let ghost c = self.notarized()[notarized_chain_idx as int];
        let chain = &self.notarized_chains[notarized_chain_idx];
        assert(chain@ == c);
        if chain.length() < 3 {
            return;
        }
        let i = chain.length();
        let newest = &chain.blocks[i - 1].block;
        let commit_2 = &chain.blocks[i - 2].block;
        let commit_1 = &chain.blocks[i - 3].block;
        assert(c[i - 1].block == newest@);
        assert(c[i - 2].block == commit_2@);
        assert(c[i - 3].block == commit_1@);
        if commit_2.epoch < u64::MAX && newest.epoch == commit_2.epoch + 1 && commit_1.epoch < u64::MAX
            && commit_2.epoch == commit_1.epoch + 1 {
            let finalized = chain.copy_up_to_height(commit_2.height);
            self.finalized_chain_length = finalized.length();
            self.finalized_chain = finalized;
            if self.num_finalizations < usize::MAX {
                self.num_finalizations = self.num_finalizations + 1;
            }
        }
    }

    /// Appends a notarized block to chain `chain_index` (whose newest block
    /// must be the block's parent), records a new longest notarized length,
    /// tries to finalize the chain the block was appended to and orders the
    /// chains from longest to shortest. An index past the last chain changes
    /// nothing. When no chain was longer than the recorded longest length,
    /// none is afterwards.
    pub fn add_to_chain(&mut self, notarized_block: Block, signatures: Vec<Signature>, chain_index: usize)
        requires
            old(self).wf(),
            chain_index < old(self).notarized().len() ==> old(self).notarized()[chain_index as int].last().block.hash
                == notarized_block.parent_hash@,
            chain_index < old(self).notarized().len() ==> commit_in_bounds(
                old(self).notarized()[chain_index as int].push(signed_model(notarized_block, signatures@)),
            ),
        ensures
            final(self).wf(),
            chain_index >= old(self).notarized().len() ==> *final(self) == *old(self),
            chain_index < old(self).notarized().len() ==> add_to_chain_post(
                *old(self),
                *final(self),
                notarized_block,
                signatures@,
                chain_index as int,
            ),
            (forall|j: int| 0 <= j < old(self).notarized().len() ==> (#[trigger] old(self).notarized()[j]).len()
                <= old(self).longest_notarized_chain_length) ==> (forall|j: int|
                0 <= j < final(self).notarized().len() ==> (#[trigger] final(self).notarized()[j]).len()
                    <= final(self).longest_notarized_chain_length),
    {
        if chain_index >= self.notarized_chains.len() {
            return;
        }
        let ghost old_n = self.notarized();
        let ghost sb = signed_model(notarized_block, signatures@);
        let ghost old_longest = self.longest_notarized_chain_length;
        let mut chains: Vec<LocalChain> = Vec::new();
        std::mem::swap(&mut chains, &mut self.notarized_chains);
        assert(chains_view(chains@) == old_n);
        let mut chain = chains.remove(chain_index);
        assert(chain@ == old_n[chain_index as int]);
        chain.append_block(notarized_block, signatures);
        assert(chain@ == old_n[chain_index as int].push(sb));
        if chain.length() > self.longest_notarized_chain_length {
            self.longest_notarized_chain_length = chain.length();
        }
        chains.insert(chain_index, chain);
        let ghost updated = old_n.update(chain_index as int, old_n[chain_index as int].push(sb));
        assert(chains_view(chains@) =~= updated);
        self.notarized_chains = chains;
        proof {
            assert(self.notarized() == updated);
            assert forall|j: int| 0 <= j < updated.len() implies (#[trigger] updated[j]).len() > 0 by {
                if j != chain_index {
                    assert(updated[j] == old_n[j]);
                }
            }
            // a chain of the longest length is still there
            if old_n[chain_index as int].len() + 1 > old_longest {
                assert(updated[chain_index as int].len() == self.longest_notarized_chain_length);
            } else {
                let w = choose|w: int| 0 <= w < old_n.len() && (#[trigger] old_n[w]).len() == old_longest;
                assert(w != chain_index);
                assert(updated[w] == old_n[w]);
                assert(updated[w].len() == self.longest_notarized_chain_length);
            }
            assert(self.wf());
        }
        // Finalize from the chain the block was appended to, wherever sorting moves it.
        self.try_finalize(chain_index);
        let mut unsorted: Vec<LocalChain> = Vec::new();
        std::mem::swap(&mut unsorted, &mut self.notarized_chains);
        assert(chains_view(unsorted@) == updated);
        self.notarized_chains = sort_chains_by_len(unsorted);
        proof {
            let sorted = sort_by_len_desc(updated);
            lemma_sort_len(updated);
            assert(self.notarized() == sorted);
            // every sorted chain was a chain of `updated`, and those hold a block
            assert forall|j: int| 0 <= j < sorted.len() implies (#[trigger] sorted[j]).len() > 0 by {
                lemma_sort_members(updated, j);
                let k = choose|k: int| 0 <= k < updated.len() && updated[k] == sorted[j];
                if k != chain_index {
                    assert(updated[k] == old_n[k]);
                }
            }
            // no chain is longer than the recorded longest length, if none was
            if forall|j: int| 0 <= j < old_n.len() ==> (#[trigger] old_n[j]).len() <= old_longest {
                assert forall|j: int| 0 <= j < sorted.len() implies (#[trigger] sorted[j]).len()
                    <= self.longest_notarized_chain_length by {
                    lemma_sort_members(updated, j);
                    let k = choose|k: int| 0 <= k < updated.len() && updated[k] == sorted[j];
                    if k != chain_index {
                        assert(updated[k] == old_n[k]);
                    }
                }
            }
            // a chain of the longest length is still there
            if old_n[chain_index as int].len() + 1 > old_longest {
                lemma_sort_keeps(updated, chain_index as int);
                let j = choose|j: int| 0 <= j < sorted.len() && sorted[j] == updated[chain_index as int];
                assert(sorted[j].len() == self.longest_notarized_chain_length);
            } else {
                let w = choose|w: int| 0 <= w < old_n.len() && (#[trigger] old_n[w]).len() == old_longest;
                assert(w != chain_index);
                assert(updated[w] == old_n[w]);
                lemma_sort_keeps(updated, w);
                let j = choose|j: int| 0 <= j < sorted.len() && sorted[j] == updated[w];
                assert(sorted[j].len() == self.longest_notarized_chain_length);
            }
            assert(self.wf());
        }
    }

    /// A copy of the finalized chain.
    pub fn export_local_chain(&self) -> (c: LocalChain)
        ensures
            c@ == self.finalized_chain@,
    {
        self.finalized_chain.clone()
    }

    /// Drops every notarized chain that is not of the longest notarized length
    /// and returns the newest block of the first remaining chain.
    pub fn head(&mut self) -> (h: (&Block, &Vec<Signature>))
        requires
            old(self).wf(),
        ensures
            final(self).wf(),
            final(self).notarized() == keep_of_len(
                old(self).notarized(),
                old(self).longest_notarized_chain_length as nat,
            ),
            final(self).finalized_chain@ == old(self).finalized_chain@,
            final(self).finalized_chain_length == old(self).finalized_chain_length,
            final(self).longest_notarized_chain_length == old(self).longest_notarized_chain_length,
            final(self).num_finalizations == old(self).num_finalizations,
            h.0@ == final(self).notarized()[0].last().block,
            sigs_view(h.1@) == final(self).notarized()[0].last().signatures,
            final(self).notarized()[0].len() == old(self).longest_notarized_chain_length,
    {
        self.cleanup_notarized_chains();
        proof {
            self.lemma_wf();
            lemma_keep_of_len(old(self).notarized(), old(self).longest_notarized_chain_length as nat);
        }
        assert(self.notarized()[0] == self.notarized_chains@[0]@);
        self.notarized_chains[0].head()
    }

    /// The first notarized chain whose newest block is `block`'s parent.
    fn find_ancestor(&self, block: &Block) -> (idx: Option<usize>)
        requires
            self.wf(),
        ensures
            match idx {
                Some(i) => first_head_index(self.notarized(), block.parent_hash@, i as int),
                None => forall|k: int|
                    0 <= k < self.notarized().len() ==> (#[trigger] self.notarized()[k]).last().block.hash
                        != block.parent_hash@,
            },
    {
        proof {
            self.lemma_wf();
        }
        let mut chain_idx: usize = 0;
        while chain_idx < self.notarized_chains.len()
            invariant
                self.wf(),
                chain_idx <= self.notarized().len(),
                self.notarized().len() == self.notarized_chains@.len(),
                forall|k: int|
                    0 <= k < chain_idx ==> (#[trigger] self.notarized()[k]).last().block.hash
                        != block.parent_hash@,
            decreases self.notarized_chains@.len() - chain_idx,
        {
            proof {
                self.lemma_wf();
            }
            assert(self.notarized()[chain_idx as int] == self.notarized_chains@[chain_idx as int]@);
            let (head, _) = self.notarized_chains[chain_idx].head();
            if crate::crypto::hash_equal(&head.hash, &block.parent_hash) {
                return Some(chain_idx);
            }
            chain_idx = chain_idx + 1;
        }
        None
    }

    /// Whether some notarized chain ends in `block`'s parent.
    pub fn find_ancestor_pub(&self, block: &Block) -> (found: bool)
        requires
            self.wf(),
        ensures
            found == exists|i: int|
                0 <= i < self.notarized().len() && (#[trigger] self.notarized()[i]).last().block.hash
                    == block.parent_hash@,
    {
        match self.find_ancestor(block) {
            Some(i) => {
                assert(self.notarized()[i as int].last().block.hash == block.parent_hash@);
                true
            },
            None => false,
        }
    }

    /// Appending `block` to the first chain that ends in its parent would
    /// finalize a prefix longer than the chain (the height recorded in the
    /// block before the newest is past the chain's end).
    pub open spec fn append_overruns(&self, block: Block, sigs: Seq<Signature>) -> bool {
        exists|i: int|
            first_head_index(self.notarized(), block.parent_hash@, i) && !commit_in_bounds(
                self.notarized()[i].push(signed_model(block, sigs)),
            )
    }

    /// Whether appending `block` with `signatures` to the first chain that
    /// ends in its parent would copy a prefix the chain does not hold.
    pub fn append_would_overrun(&self, block: &Block, signatures: &Vec<Signature>) -> (r: bool)
        requires
            self.wf(),
        ensures
            r == self.append_overruns(*block, signatures@),
    {
        match self.find_ancestor(block) {
            None => false,
            Some(idx) => {
                let ghost n = self.notarized();
                let ghost sb = signed_model(*block, signatures@);
                let mut chain = self.notarized_chains[idx].clone();
                assert(chain@ == n[idx as int]);
                chain.append_block(block.clone(), crate::blockchain::block::copy_signatures(signatures));
                assert(chain@ == n[idx as int].push(sb));
                let ok = commit_in_bounds_exec(&chain);
                proof {
                    if !ok {
                        assert(first_head_index(n, block.parent_hash@, idx as int));
                    } else {
                        assert forall|j: int| first_head_index(n, block.parent_hash@, j) implies j == idx by {
                            if j < idx {
                                assert(n[j].last().block.hash != block.parent_hash@);
                            } else if j > idx {
                                assert(n[idx as int].last().block.hash != block.parent_hash@);
                            }
                        }
                    }
                }
                !ok
            },
        }
    }

    /// The newest finalized block and its signatures.
    pub fn get_latest_finalized_block(&self) -> (h: (&Block, &Vec<Signature>))
        requires
            self.wf(),
        ensures
            h.0@ == self.finalized_chain@.last().block,
            sigs_view(h.1@) == self.finalized_chain@.last().signatures,
    {
        self.finalized_chain.head()
    }
}
} // verus!
