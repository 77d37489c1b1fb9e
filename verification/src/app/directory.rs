//! The directory service: a store of directory entries (a hash with the
//! signatures of directory servers), and the rule that an entry is valid when
//! more than half of the known directory servers signed its hash.
use std::collections::VecDeque;
use rand::Rng;
use vstd::prelude::*;
use crate::crypto::{Keypair, PublicKey, Sha256Hash, Signature, ed25519_signature, ed25519_verifies};
use crate::streamlet::{count_true, lemma_count_true_bound, lemma_count_true_update, lemma_count_zero};

verus! {

/// File the directory data is stored in.
pub const FILENAME: &'static str = "directory_data.json";

/// Number of entries made for each node.
pub const DIRS_PER_NODE: usize = 20;

/// Number of directory servers.
pub const NUM_DIR_SERVERS: usize = 3;

/// A directory's hash and the directory servers' signatures of it.
#[derive(Debug)]
pub struct DirectoryEntry {
    pub hash: Sha256Hash,
    pub signatures: Vec<Signature>,
}

/// The directory servers' public keys and the entries still to hand out.
#[derive(Debug)]
pub struct DirectoryService {
    pub public_keys: Vec<PublicKey>,
    pub entries: VecDeque<DirectoryEntry>,
}

/// The first key under which `sig` is a valid signature of `hash`.
pub open spec fn first_signer(keys: Seq<PublicKey>, hash: Seq<u8>, sig: Seq<u8>, from: int) -> Option<int>
    decreases keys.len() - from,
{
    if from < 0 || from >= keys.len() {
        None
    } else if ed25519_verifies(keys[from]@, hash, sig) {
        Some(from)
    } else {
        first_signer(keys, hash, sig, from + 1)
    }
}

/// Which keys signed the hash, each signature credited to the first key it
/// verifies under.
pub open spec fn signers(keys: Seq<PublicKey>, hash: Seq<u8>, sigs: Seq<Signature>) -> Seq<bool>
    decreases sigs.len(),
{
    if sigs.len() == 0 {
        Seq::new(keys.len(), |i: int| false)
    } else {
        let marks = signers(keys, hash, sigs.drop_last());
        match first_signer(keys, hash, sigs.last()@, 0) {
            Some(k) => marks.update(k, true),
            None => marks,
        }
    }
}

/// More than half of the keys signed the hash.
pub open spec fn majority_signed(keys: Seq<PublicKey>, hash: Seq<u8>, sigs: Seq<Signature>) -> bool {
    count_true(signers(keys, hash, sigs)) > keys.len() / 2
}

/// An entry is signed by a majority exactly when the keys with a valid
/// signature on it are more than half of the keys: with an even number of
/// keys, half of them is not enough.
pub proof fn lemma_majority_is_more_than_half(keys: Seq<PublicKey>, hash: Seq<u8>, sigs: Seq<Signature>)
    ensures
        majority_signed(keys, hash, sigs) <==> 2 * count_true(signers(keys, hash, sigs)) > keys.len(),
{
}

proof fn lemma_first_signer(keys: Seq<PublicKey>, hash: Seq<u8>, sig: Seq<u8>, from: int)
    requires
        0 <= from,
    ensures
        match first_signer(keys, hash, sig, from) {
            Some(k) => from <= k < keys.len(),
            None => true,
        },
    decreases keys.len() - from,
{
    if from < keys.len() && !ed25519_verifies(keys[from]@, hash, sig) {
        lemma_first_signer(keys, hash, sig, from + 1);
    }
}

proof fn lemma_signers(keys: Seq<PublicKey>, hash: Seq<u8>, sigs: Seq<Signature>)
    ensures
        signers(keys, hash, sigs).len() == keys.len(),
    decreases sigs.len(),
{
    if sigs.len() > 0 {
        lemma_signers(keys, hash, sigs.drop_last());
        lemma_first_signer(keys, hash, sigs.last()@, 0);
    }
}

/// The signers of a prefix are among the signers of the whole: the count
/// never drops as signatures are added.
proof fn lemma_signers_grow(keys: Seq<PublicKey>, hash: Seq<u8>, sigs: Seq<Signature>, k: int)
    requires
        0 <= k <= sigs.len(),
    ensures
        count_true(signers(keys, hash, sigs.take(k))) <= count_true(signers(keys, hash, sigs)),
    decreases sigs.len() - k,
{
    if k < sigs.len() {
        lemma_signers_grow(keys, hash, sigs, k + 1);
        let t = sigs.take(k + 1);
        assert(t.drop_last() =~= sigs.take(k));
        lemma_signers(keys, hash, sigs.take(k));
        lemma_first_signer(keys, hash, t.last()@, 0);
        let marks = signers(keys, hash, sigs.take(k));
        match first_signer(keys, hash, t.last()@, 0) {
            Some(j) => {
                if !marks[j] {
                    lemma_count_true_update(marks, j);
                } else {
                    assert(marks.update(j, true) =~= marks);
                }
            },
            None => {},
        }
    } else {
        assert(sigs.take(k) =~= sigs);
    }
}

/// The first key from `from` on that a signature verifies under is `x` when
/// it verifies under key `x` and under none of the keys between.
proof fn lemma_first_signer_is(keys: Seq<PublicKey>, hash: Seq<u8>, sig: Seq<u8>, from: int, x: int)
    requires
        0 <= from <= x < keys.len(),
        ed25519_verifies(keys[x]@, hash, sig),
        forall|y: int| from <= y < x ==> !ed25519_verifies(#[trigger] keys[y]@, hash, sig),
    ensures
        first_signer(keys, hash, sig, from) == Some(x),
    decreases x - from,
{
    if from < x {
        lemma_first_signer_is(keys, hash, sig, from + 1, x);
    }
}

/// Marking the keys below `k` marks `k` of them (all of them when `k` is past the end).
proof fn lemma_count_marked_below(len: nat, k: int)
    requires
        0 <= k,
    ensures
        count_true(Seq::new(len, |i: int| i < k)) == if k < len {
            k
        } else {
            len as int
        },
    decreases len,
{
    if len > 0 {
        lemma_count_marked_below((len - 1) as nat, k);
        assert(Seq::new(len, |i: int| i < k).drop_last() =~= Seq::new((len - 1) as nat, |i: int| i < k));
    }
}

/// When each of the signatures is credited to the key at its own position,
/// the first `k` of them mark exactly the first `k` keys.
proof fn lemma_signers_in_order(keys: Seq<PublicKey>, hash: Seq<u8>, sigs: Seq<Signature>, k: int)
    requires
        0 <= k <= sigs.len(),
        sigs.len() <= keys.len(),
        forall|x: int| 0 <= x < sigs.len() ==> first_signer(keys, hash, (#[trigger] sigs[x])@, 0) == Some(x),
    ensures
        signers(keys, hash, sigs.take(k)) == Seq::new(keys.len(), |i: int| i < k),
    decreases k,
{
    if k == 0 {
        assert(sigs.take(0) =~= Seq::<Signature>::empty());
        assert(Seq::new(keys.len(), |i: int| false) =~= Seq::new(keys.len(), |i: int| i < 0));
    } else {
        lemma_signers_in_order(keys, hash, sigs, k - 1);
        let t = sigs.take(k);
        assert(t.drop_last() =~= sigs.take(k - 1));
        assert(t.last() == sigs[k - 1]);
        assert(Seq::new(keys.len(), |i: int| i < k - 1).update(k - 1, true) =~= Seq::new(
            keys.len(),
            |i: int| i < k,
        ));
    }
}

/// An entry signed in order by the first `n` of the directory servers' key
/// pairs, `n` being more than half of the servers, is valid (see
/// `DirectoryService::is_valid`) at every directory service that holds the
/// servers' public keys, so long as none of its signatures also verifies
/// under another server's key (such a signature is credited to whichever of
/// the keys comes first).
pub proof fn lemma_entry_valid_everywhere(entry: DirectoryEntry, all_keys: Seq<Keypair>, service: DirectoryService, n: int)
    requires
        entry.signed_by_first(all_keys, n),
        service.public_keys@.len() / 2 < n <= service.public_keys@.len(),
        forall|x: int| 0 <= x < n ==> service.public_keys@[x] == (#[trigger] all_keys[x]).public,
        forall|x: int, y: int|
            #![trigger entry.signatures@[x], service.public_keys@[y]]
            0 <= x < n && 0 <= y < service.public_keys@.len() && x != y ==> !ed25519_verifies(
                service.public_keys@[y]@,
                entry.hash@,
                entry.signatures@[x]@,
            ),
    ensures
        majority_signed(service.public_keys@, entry.hash@, entry.signatures@),
{
    let keys = service.public_keys@;
    let sigs = entry.signatures@;
    let h = entry.hash@;
    assert forall|x: int| 0 <= x < sigs.len() implies first_signer(keys, h, (#[trigger] sigs[x])@, 0) == Some(x) by {
        assert(keys[x] == all_keys[x].public);
        assert forall|y: int| 0 <= y < x implies !ed25519_verifies(#[trigger] keys[y]@, h, sigs[x]@) by {
            assert(sigs[x] == entry.signatures@[x] && keys[y] == service.public_keys@[y]);
        }
        lemma_first_signer_is(keys, h, sigs[x]@, 0, x);
    }
    lemma_signers_in_order(keys, h, sigs, n);
    assert(sigs.take(n) =~= sigs);
    lemma_count_marked_below(keys.len(), n);
}

/// Calls `rand::thread_rng().gen::<[u8; 32]>()`. Trusted for nothing: the value is random.
#[verifier::external_body]
fn random_hash() -> Sha256Hash {
    rand::thread_rng().gen::<Sha256Hash>()
}

impl DirectoryEntry {
    /// The entry's signatures are those of the first `n` keys of `all_keys`
    /// on its hash, in order, and each verifies under its key's public half.
    pub open spec fn signed_by_first(&self, all_keys: Seq<Keypair>, n: int) -> bool {
        &&& self.signatures@.len() == n
        &&& forall|x: int|
            0 <= x < n ==> (#[trigger] self.signatures@[x])@ == ed25519_signature(all_keys[x].secret@, self.hash@)
        &&& forall|x: int|
            0 <= x < n ==> ed25519_verifies(all_keys[x].public@, self.hash@, (#[trigger] self.signatures@[x])@)
    }
}

impl DirectoryService {
    /// Whether the entry is valid: it is one (`None` stands for data that is
    /// not a directory entry) and more than half of the known directory
    /// servers have a valid signature of its hash on it, each signature
    /// credited to the first key it verifies under (so a repeated signature
    /// counts once).
    pub fn is_valid(&self, entry: Option<DirectoryEntry>) -> (valid: bool)
        requires
            self.public_keys@.len() <= i32::MAX,
        ensures
            valid == match entry {
                None => false,
                Some(dir) => majority_signed(self.public_keys@, dir.hash@, dir.signatures@),
            },
    {
        let dir = match entry {
            None => {
                return false;
            },
            Some(dir) => dir,
        };
        let keys = &self.public_keys;
        let ghost h = dir.hash@;
        let mut marks: Vec<bool> = Vec::new();
        let mut z: usize = 0;
        while z < keys.len()
            invariant
                z <= keys@.len(),
                marks@ == Seq::new(z as nat, |i: int| false),
            decreases keys@.len() - z,
        {
            marks.push(false);
            assert(marks@ =~= Seq::new((z + 1) as nat, |i: int| false));
            z = z + 1;
        }
        let mut valid_signatures: usize = 0;
        let mut s: usize = 0;
        proof {
            assert(dir.signatures@.take(0) =~= Seq::<Signature>::empty());
            assert forall|m: nat| m <= marks@.len() implies count_true(#[trigger] marks@.take(m as int)) == 0 by {
                lemma_count_zero(marks@, m);
            }
            assert(marks@.take(marks@.len() as int) =~= marks@);
        }
        while s < dir.signatures.len()
            invariant
                s <= dir.signatures@.len(),
                entry == Some(dir),
                h == dir.hash@,
                keys@ == self.public_keys@,
                keys@.len() <= i32::MAX,
                marks@ == signers(keys@, h, dir.signatures@.take(s as int)),
                valid_signatures == count_true(marks@),
                !(valid_signatures > keys@.len() / 2),
            decreases dir.signatures@.len() - s,
        {
            proof {
                lemma_signers(keys@, h, dir.signatures@.take(s as int));
                lemma_count_true_bound(marks@);
                assert(dir.signatures@.take(s + 1).drop_last() =~= dir.signatures@.take(s as int));
                assert(dir.signatures@.take(s + 1).last() == dir.signatures@[s as int]);
            }
            let sig = &dir.signatures[s];
            let mut i: usize = 0;
            let mut found = false;
            while i < keys.len() && !found
                invariant
                    i <= keys@.len(),
                    !found ==> first_signer(keys@, h, sig@, 0) == first_signer(keys@, h, sig@, i as int),
                    found ==> i < keys@.len() && first_signer(keys@, h, sig@, 0) == Some(i as int),
                    h == dir.hash@,
                decreases keys@.len() - i + (if found { 0int } else { 1int }),
            {
                if keys[i].verify(dir.hash.as_slice(), sig) {
                    found = true;
                } else {
                    i = i + 1;
                }
            }
            let ghost marks_before = marks@;
            if found {
                if !marks[i] {
                    proof {
                        lemma_count_true_update(marks@, i as int);
                        lemma_count_true_bound(marks@.update(i as int, true));
                    }
                    marks.set(i, true);
                    valid_signatures = valid_signatures + 1;
                    if valid_signatures > keys.len() / 2 {
                        proof {
                            assert(marks@ == signers(keys@, h, dir.signatures@.take(s + 1)));
                            lemma_signers_grow(keys@, h, dir.signatures@, s + 1);
                        }
                        return true;
                    }
                } else {
                    assert(marks@.update(i as int, true) =~= marks@);
                }
            }
            s = s + 1;
        }
        assert(dir.signatures@.take(s as int) =~= dir.signatures@);
        false
    }

    /// Hands out the oldest entry, if any is left.
    pub fn next(&mut self) -> (dir: Option<DirectoryEntry>)
        ensures
            final(self).public_keys == old(self).public_keys,
            old(self).entries@.len() == 0 ==> dir.is_none() && final(self).entries@ == old(self).entries@,
            old(self).entries@.len() > 0 ==> dir == Some(old(self).entries@[0]) && final(self).entries@
                == old(self).entries@.drop_first(),
    {
        let r = self.entries.pop_front();
        proof {
            if old(self).entries@.len() > 0 {
                assert(self.entries@ =~= old(self).entries@.drop_first());
            }
        }
        r
    }
}

/// A directory service for one node: the given public keys and twenty
/// entries, each a random hash signed by the first half (plus one) of the keys.
pub fn init_one_directory_service(all_keys: &Vec<Keypair>, public_keys: &Vec<PublicKey>) -> (ret: DirectoryService)
    requires
        all_keys@.len() > 0,
        forall|x: int| 0 <= x < all_keys@.len() ==> (#[trigger] all_keys@[x]).wf(),
    ensures
        ret.public_keys@ == public_keys@,
        ret.entries@.len() == DIRS_PER_NODE,
        forall|j: int|
            0 <= j < ret.entries@.len() ==> (#[trigger] ret.entries@[j]).signed_by_first(
                all_keys@,
                (all_keys@.len() / 2 + 1) as int,
            ),
        forall|j: int, x: int|
            0 <= j < ret.entries@.len() && 0 <= x < all_keys@.len() / 2 + 1 && x < public_keys@.len()
                && public_keys@[x] == all_keys@[x].public ==> ed25519_verifies(
                ret.public_keys@[x]@,
                ret.entries@[j].hash@,
                #[trigger] ret.entries@[j].signatures@[x]@,
            ),
{
    let mut keys: Vec<PublicKey> = Vec::new();
    let mut k: usize = 0;
    while k < public_keys.len()
        invariant
            k <= public_keys@.len(),
            keys@ == public_keys@.take(k as int),
        decreases public_keys@.len() - k,
    {
        keys.push(public_keys[k]);
        assert(public_keys@.take(k + 1) =~= public_keys@.take(k as int).push(public_keys@[k as int]));
        k = k + 1;
    }
    assert(public_keys@.take(k as int) =~= public_keys@);
    let mut ret = DirectoryService { public_keys: keys, entries: VecDeque::new() };
    let majority = all_keys.len() / 2 + 1;
    let mut j: usize = 0;
    while j < DIRS_PER_NODE
        invariant
            j <= DIRS_PER_NODE,
            ret.public_keys@ == public_keys@,
            ret.entries@.len() == j,
            majority == all_keys@.len() / 2 + 1,
            majority <= all_keys@.len(),
            forall|x: int| 0 <= x < all_keys@.len() ==> (#[trigger] all_keys@[x]).wf(),
            forall|y: int| 0 <= y < j ==> (#[trigger] ret.entries@[y]).signed_by_first(all_keys@, majority as int),
        decreases DIRS_PER_NODE - j,
    {
        let mut dir = DirectoryEntry { hash: random_hash(), signatures: Vec::new() };
        let mut x: usize = 0;
        while x < majority
            invariant
                x <= majority,
                majority <= all_keys@.len(),
                forall|w: int| 0 <= w < all_keys@.len() ==> (#[trigger] all_keys@[w]).wf(),
                dir.signatures@.len() == x,
                forall|w: int|
                    0 <= w < x ==> (#[trigger] dir.signatures@[w])@ == ed25519_signature(all_keys@[w].secret@, dir.hash@),
                forall|w: int|
                    0 <= w < x ==> ed25519_verifies(all_keys@[w].public@, dir.hash@, (#[trigger] dir.signatures@[w])@),
            decreases majority - x,
        {
            let sig = all_keys[x].sign(dir.hash.as_slice());
            dir.signatures.push(sig);
            x = x + 1;
        }
        let ghost d = dir;
        ret.entries.push_back(dir);
        assert(ret.entries@.last() == d);
        j = j + 1;
    }
    ret
}

} // verus!
