//! A Streamlet node: its keys, the keys of its peers, its chains and pending
//! transactions, and the decisions it takes on each event (an epoch starting,
//! a message arriving, a command typed by its operator).
use std::collections::VecDeque;
use std::collections::hash_map::DefaultHasher;
use std::hash::Hasher;
use itertools::Itertools;
use rand::Rng;
use vstd::prelude::*;
use crate::app::app_interface::AppInterface;
use crate::blockchain::block::{Block, sigs_view};
use crate::blockchain::chain::genesis_signed;
use crate::blockchain::manager::BlockchainManager;
use crate::crypto::{Keypair, PublicKey, Signature, ed25519_signature, ed25519_verifies, signature_equal};
use crate::messages::{Message, payload_bytes};
use crate::blockchain::manager::{add_to_chain_post, first_head_index, keep_of_len};
use crate::messages::SocketAddr;
use crate::network::{is_subscribe, is_unsubscribe};
use crate::peer_init::InitStatus;
use crate::messages::{MessageKind, MessagePayload};
use crate::network::{MAX_MSG_SIZE, NetworkStack, is_publish};
use crate::wire::{lemma_block_payload_len, lemma_message_bytes_len, message_bytes};
use crate::peer_init::{Peers, advertisement_received, advertises, peer_names, string_views};
use crate::text::{bytes_prefix, starts_with};

verus! {

/// Topic on which the nodes broadcast protocol messages.
pub const STREAMLET_TOPIC: &'static str = "streamlet";

/// Pause, in milliseconds, before a leader proposes.
pub const EPOCH_DELAY_MS: u64 = 100;

/// Number of epochs a benchmark runs.
pub const NUM_TEST_EPOCHS: u64 = 5;

/// A misbehaviour a node can be set to show, for demonstration.
#[derive(Debug, Clone, Copy, PartialEq, Eq, Structural)]
pub enum CompromiseType {
    WrongParentHash,
    NoPropose,
    NoVote,
    NonLeaderPropose,
    EarlyEpoch,
    LateEpoch,
    NoCompromise,
}

/// Whether a node runs interactively or as a benchmark worker.
#[derive(Debug, Clone, Copy, PartialEq, Eq, Structural)]
pub enum OperationMode {
    Normal,
    Benchmark,
}

/// Size of the transactions a benchmark proposes.
#[derive(Debug, Clone, Copy, PartialEq, Eq, Structural)]
pub enum BenchmarkDataType {
    Small,
    Medium,
    Large,
}

/// What the standard library's `DefaultHasher` yields for one `u64` written
/// into a fresh hasher (the same in every process of one build).
pub uninterp spec fn std_default_hash_u64(x: u64) -> u64;

/// Calls `DefaultHasher::new`, `write_u64` and `finish`.
/// Trusted: the result is the default hash of `x` and nothing else.
#[verifier::external_body]
fn default_hash_u64(x: u64) -> (h: u64)
    ensures
        h == std_default_hash_u64(x),
{
    let mut hasher = DefaultHasher::new();
    hasher.write_u64(x);
    hasher.finish()
}

/// Lexicographic order of byte strings (the order of Rust strings).
pub open spec fn bytes_le(a: Seq<u8>, b: Seq<u8>) -> bool
    decreases a.len(),
{
    if a.len() == 0 {
        true
    } else if b.len() == 0 {
        false
    } else if a[0] < b[0] {
        true
    } else if a[0] > b[0] {
        false
    } else {
        bytes_le(a.drop_first(), b.drop_first())
    }
}

/// The names are in ascending order of their UTF-8 bytes.
pub open spec fn names_sorted(s: Seq<String>) -> bool {
    forall|i: int, j: int|
        0 <= i < j < s.len() ==> bytes_le(
            vstd::utf8::encode_utf8(#[trigger] s[i]@),
            vstd::utf8::encode_utf8(#[trigger] s[j]@),
        )
}

/// The order of names by their UTF-8 bytes.
pub open spec fn name_le(x: Seq<char>, y: Seq<char>) -> bool {
    bytes_le(vstd::utf8::encode_utf8(x), vstd::utf8::encode_utf8(y))
}

/// Every byte string is ordered before itself.
proof fn lemma_bytes_le_reflexive(a: Seq<u8>)
    ensures
        bytes_le(a, a),
    decreases a.len(),
{
    if a.len() > 0 {
        lemma_bytes_le_reflexive(a.drop_first());
    }
}

/// Byte strings ordered both ways are equal.
proof fn lemma_bytes_le_antisymmetric(a: Seq<u8>, b: Seq<u8>)
    requires
        bytes_le(a, b),
        bytes_le(b, a),
    ensures
        a == b,
    decreases a.len(),
{
    if a.len() > 0 && b.len() > 0 {
        lemma_bytes_le_antisymmetric(a.drop_first(), b.drop_first());
        assert(a =~= seq![a[0]] + a.drop_first());
        assert(b =~= seq![b[0]] + b.drop_first());
    } else {
        assert(a =~= b);
    }
}

/// The order of byte strings is transitive.
proof fn lemma_bytes_le_transitive(a: Seq<u8>, b: Seq<u8>, c: Seq<u8>)
    requires
        bytes_le(a, b),
        bytes_le(b, c),
    ensures
        bytes_le(a, c),
    decreases a.len(),
{
    if a.len() > 0 && b.len() > 0 && c.len() > 0 && a[0] == b[0] && b[0] == c[0] {
        lemma_bytes_le_transitive(a.drop_first(), b.drop_first(), c.drop_first());
    }
}

/// Any two byte strings are ordered one way or the other.
proof fn lemma_bytes_le_total(a: Seq<u8>, b: Seq<u8>)
    ensures
        bytes_le(a, b) || bytes_le(b, a),
    decreases a.len(),
{
    if a.len() > 0 && b.len() > 0 && a[0] == b[0] {
        lemma_bytes_le_total(a.drop_first(), b.drop_first());
    }
}

/// Ordering names by their UTF-8 bytes is a total order.
proof fn lemma_name_le_total_ordering()
    ensures
        vstd::relations::total_ordering(|x: Seq<char>, y: Seq<char>| name_le(x, y)),
{
    let leq = |x: Seq<char>, y: Seq<char>| name_le(x, y);
    assert forall|x: Seq<char>| #[trigger] leq(x, x) by {
        lemma_bytes_le_reflexive(vstd::utf8::encode_utf8(x));
    }
    assert forall|x: Seq<char>, y: Seq<char>| #[trigger] leq(x, y) && #[trigger] leq(y, x) implies x == y by {
        lemma_bytes_le_antisymmetric(vstd::utf8::encode_utf8(x), vstd::utf8::encode_utf8(y));
        vstd::utf8::encode_utf8_decode_utf8(x);
        vstd::utf8::encode_utf8_decode_utf8(y);
    }
    assert forall|x: Seq<char>, y: Seq<char>, z: Seq<char>| #[trigger] leq(x, y) && #[trigger] leq(y, z) implies leq(
        x,
        z,
    ) by {
        lemma_bytes_le_transitive(
            vstd::utf8::encode_utf8(x),
            vstd::utf8::encode_utf8(y),
            vstd::utf8::encode_utf8(z),
        );
    }
    assert forall|x: Seq<char>, y: Seq<char>| #[trigger] leq(x, y) || #[trigger] leq(y, x) by {
        lemma_bytes_le_total(vstd::utf8::encode_utf8(x), vstd::utf8::encode_utf8(y));
    }
}

/// Calls `itertools::Itertools::sorted` on the names.
/// Trusted: the result holds the same names, in ascending order of their bytes.
#[verifier::external_body]
fn sorted_names(names: Vec<String>) -> (res: Vec<String>)
    ensures
        string_views(res@).to_multiset() == string_views(names@).to_multiset(),
        forall|i: int, j: int|
            0 <= i < j < res@.len() ==> bytes_le(
                vstd::utf8::encode_utf8(#[trigger] res@[i]@),
                vstd::utf8::encode_utf8(#[trigger] res@[j]@),
            ),
{
    names.into_iter().sorted().collect()
}

/// Calls `rand::random::<u8>()`. Trusted for nothing: the value is random.
#[verifier::external_body]
fn random_u8() -> u8 {
    rand::random::<u8>()
}

/// Calls `rand::thread_rng().gen::<u64>()`. Trusted for nothing: the value is random.
#[verifier::external_body]
fn random_u64() -> u64 {
    rand::thread_rng().gen()
}

/// Calls `<[u8]>::sort` on the hash's bytes.
/// Trusted: the bytes afterwards are the same bytes in ascending order.
#[verifier::external_body]
fn sort_hash_bytes(h: &mut [u8; 32])
    ensures
        final(h)@.to_multiset() == old(h)@.to_multiset(),
        forall|i: int, j: int| 0 <= i < j < 32 ==> #[trigger] final(h)@[i] <= #[trigger] final(h)@[j],
{
    h.sort();
}

/// The key listed for `name`, the first one if several are.
pub open spec fn key_of(keys: Seq<(String, PublicKey)>, name: Seq<char>) -> Option<PublicKey>
    decreases keys.len(),
{
    if keys.len() == 0 {
        None
    } else if keys[0].0@ == name {
        Some(keys[0].1)
    } else {
        key_of(keys.drop_first(), name)
    }
}

/// The first key from position `from` on, not yet used, under which `sig` is
/// a valid signature of `msg`.
pub open spec fn first_verifying(
    keys: Seq<(String, PublicKey)>,
    used: Seq<bool>,
    msg: Seq<u8>,
    sig: Seq<u8>,
    from: int,
) -> Option<int>
    decreases keys.len() - from,
{
    if from < 0 || from >= keys.len() {
        None
    } else if !used[from] && ed25519_verifies(keys[from].1@, msg, sig) {
        Some(from)
    } else {
        first_verifying(keys, used, msg, sig, from + 1)
    }
}

/// Matches each signature in turn with the first unused key that it
/// verifies under; yields the number matched and which keys were used.
pub open spec fn tally(keys: Seq<(String, PublicKey)>, sigs: Seq<Signature>, msg: Seq<u8>) -> (nat, Seq<bool>)
    decreases sigs.len(),
{
    if sigs.len() == 0 {
        (0, Seq::new(keys.len(), |i: int| false))
    } else {
        let (n, used) = tally(keys, sigs.drop_last(), msg);
        match first_verifying(keys, used, msg, sigs.last()@, 0) {
            Some(k) => ((n + 1) as nat, used.update(k, true)),
            None => (n, used),
        }
    }
}

/// The number of valid signatures by distinct known keys.
pub open spec fn valid_signature_count(keys: Seq<(String, PublicKey)>, sigs: Seq<Signature>, msg: Seq<u8>) -> nat {
    tally(keys, sigs, msg).0
}

/// The number of signatures that notarize a block among `n` nodes: two
/// thirds of them, rounded up.
pub open spec fn notarization_threshold(n: nat) -> nat {
    (2 * n + 2) / 3
}

/// The position of an epoch's leader among `n + 1` sorted node names.
pub open spec fn leader_index(epoch: u64, n: usize) -> int {
    (std_default_hash_u64(epoch) as usize) as int % (n as int + 1)
}

/// The number of `true` entries.
pub open spec fn count_true(s: Seq<bool>) -> nat
    decreases s.len(),
{
    if s.len() == 0 {
        0
    } else {
        count_true(s.drop_last()) + if s.last() { 1nat } else { 0nat }
    }
}

/// A sequence has no more `true` entries than entries.
pub proof fn lemma_count_true_bound(s: Seq<bool>)
    ensures
        count_true(s) <= s.len(),
    decreases s.len(),
{
    if s.len() > 0 {
        lemma_count_true_bound(s.drop_last());
    }
}

/// Setting a `false` entry to `true` adds one `true` entry.
pub proof fn lemma_count_true_update(s: Seq<bool>, k: int)
    requires
        0 <= k < s.len(),
        !s[k],
    ensures
        count_true(s.update(k, true)) == count_true(s) + 1,
    decreases s.len(),
{
    if k == s.len() - 1 {
        assert(s.update(k, true).drop_last() =~= s.drop_last());
    } else {
        lemma_count_true_update(s.drop_last(), k);
        assert(s.update(k, true).drop_last() =~= s.drop_last().update(k, true));
    }
}

proof fn lemma_first_verifying(keys: Seq<(String, PublicKey)>, used: Seq<bool>, msg: Seq<u8>, sig: Seq<u8>, from: int)
    requires
        0 <= from,
        used.len() == keys.len(),
    ensures
        match first_verifying(keys, used, msg, sig, from) {
            Some(k) => from <= k < keys.len() && !used[k],
            None => true,
        },
    decreases keys.len() - from,
{
    if from < keys.len() && !(!used[from] && ed25519_verifies(keys[from].1@, msg, sig)) {
        lemma_first_verifying(keys, used, msg, sig, from + 1);
    }
}

/// The tally's count is the number of keys it used, and it uses each key at
/// most once.
proof fn lemma_tally(keys: Seq<(String, PublicKey)>, sigs: Seq<Signature>, msg: Seq<u8>)
    ensures
        tally(keys, sigs, msg).1.len() == keys.len(),
        tally(keys, sigs, msg).0 == count_true(tally(keys, sigs, msg).1),
        tally(keys, sigs, msg).0 <= sigs.len(),
    decreases sigs.len(),
{
    if sigs.len() == 0 {
        let z = Seq::new(keys.len(), |i: int| false);
        assert forall|m: nat| m <= keys.len() implies count_true(#[trigger] z.take(m as int)) == 0 by {
            lemma_count_zero(z, m);
        }
        assert(z.take(keys.len() as int) =~= z);
    } else {
        lemma_tally(keys, sigs.drop_last(), msg);
        let (n, used) = tally(keys, sigs.drop_last(), msg);
        lemma_first_verifying(keys, used, msg, sigs.last()@, 0);
        match first_verifying(keys, used, msg, sigs.last()@, 0) {
            Some(k) => {
                lemma_count_true_update(used, k);
            },
            None => {},
        }
    }
}

/// Every prefix of an all-`false` sequence counts no `true` entry.
pub proof fn lemma_count_zero(z: Seq<bool>, m: nat)
    requires
        m <= z.len(),
        forall|i: int| 0 <= i < z.len() ==> !z[i],
    ensures
        count_true(z.take(m as int)) == 0,
    decreases m,
{
    if m > 0 {
        lemma_count_zero(z, (m - 1) as nat);
        assert(z.take(m as int).drop_last() =~= z.take(m - 1));
    }
}

/// Each known key counts for at most one signature, and each signature for
/// at most one key: the number of valid signatures on a message is at most
/// the number of known keys and at most the number of signatures it carries.
pub proof fn lemma_valid_signature_count_bounded(keys: Seq<(String, PublicKey)>, sigs: Seq<Signature>, msg: Seq<u8>)
    ensures
        valid_signature_count(keys, sigs, msg) <= keys.len(),
        valid_signature_count(keys, sigs, msg) <= sigs.len(),
{
    lemma_tally(keys, sigs, msg);
    lemma_count_true_bound(tally(keys, sigs, msg).1);
}

/// A Streamlet node.
pub struct StreamletInstance {
    pub id: u32,
    pub name: String,
    pub mode: OperationMode,
    pub expected_peer_count: usize,
    pub epoch_length: u64,
    pub blockchain_manager: BlockchainManager,
    pub pending_transactions: VecDeque<Vec<u8>>,
    pub keypair: Keypair,
    pub public_keys: Vec<(String, PublicKey)>,
    pub sorted_peer_names: Vec<String>,
    pub compromise_type: CompromiseType,
}


/// Whether `sig` is among `sigs`.
fn contains_signature(sigs: &Vec<Signature>, sig: &Signature) -> (r: bool)
    ensures
        r == sigs_view(sigs@).contains(sig@),
{
    let mut i: usize = 0;
    while i < sigs.len()
        invariant
            i <= sigs@.len(),
            forall|j: int| 0 <= j < i ==> sigs@[j]@ != sig@,
        decreases sigs@.len() - i,
    {
        if signature_equal(sig, &sigs[i]) {
            assert(sigs_view(sigs@)[i as int] == sig@);
            return true;
        }
        i = i + 1;
    }
    assert forall|j: int| 0 <= j < sigs_view(sigs@).len() implies sigs_view(sigs@)[j] != sig@ by {
        assert(sigs_view(sigs@)[j] == sigs@[j]@);
    }
    false
}

/// The listed key of the first entry named `name`, and its position.
fn lookup_key(keys: &Vec<(String, PublicKey)>, name: &String) -> (r: Option<(usize, PublicKey)>)
    ensures
        match r {
            Some((i, pk)) => i < keys@.len() && keys@[i as int].0@ == name@ && keys@[i as int].1 == pk
                && key_of(keys@, name@) == Some(pk)
                && forall|j: int| 0 <= j < i ==> keys@[j].0@ != name@,
            None => key_of(keys@, name@).is_none() && forall|j: int| 0 <= j < keys@.len() ==> keys@[j].0@ != name@,
        },
{
    let mut i: usize = 0;
    assert(keys@.skip(0) =~= keys@);
    while i < keys.len()
        invariant
            i <= keys@.len(),
            forall|j: int| 0 <= j < i ==> keys@[j].0@ != name@,
            key_of(keys@, name@) == key_of(keys@.skip(i as int), name@),
        decreases keys@.len() - i,
    {
        assert(keys@.skip(i as int).drop_first() =~= keys@.skip(i + 1));
        if keys[i].0 == *name {
            return Some((i, keys[i].1));
        }
        i = i + 1;
    }
    None
}

impl StreamletInstance {
    /// The node's keys match, its chains are well formed, and no peer name is
    /// listed twice among the known public keys.
    pub open spec fn wf(&self) -> bool {
        &&& self.keypair.wf()
        &&& self.blockchain_manager.wf()
        &&& peer_names(self.public_keys@).no_duplicates()
    }

    /// The node's key pair.
    pub open spec fn keys(&self) -> Keypair {
        self.keypair
    }

    /// The known public keys, by peer name, in the order they were learnt.
    pub open spec fn known_keys(&self) -> Seq<(String, PublicKey)> {
        self.public_keys@
    }

    /// The number of peers the node expects (itself excluded).
    pub open spec fn expected_peers(&self) -> usize {
        self.expected_peer_count
    }

    /// The names used for leader election, in ascending order.
    pub open spec fn leader_names(&self) -> Seq<String> {
        self.sorted_peer_names@
    }

    /// The payloads waiting to be proposed, oldest first.
    pub open spec fn pending(&self) -> Seq<Seq<u8>> {
        self.pending_transactions@.map_values(|v: Vec<u8>| v@)
    }

    /// The node's chain manager.
    pub open spec fn manager(&self) -> BlockchainManager {
        self.blockchain_manager
    }

    /// A node called `name` with a fresh key pair, expecting
    /// `expected_peer_count` peers, knowing only its own public key.
    pub fn new(name: String, expected_peer_count: usize, epoch_length: u64, mode: OperationMode) -> (s: StreamletInstance)
        ensures
            s.wf(),
            s.id == 0,
            s.name@ == name@,
            s.expected_peers() == expected_peer_count,
            s.known_keys().len() == 1,
            s.known_keys()[0].0@ == name@,
            s.known_keys()[0].1 == s.keys().public,
            s.leader_names().len() == 0,
            s.pending().len() == 0,
            s.compromise_type == CompromiseType::NoCompromise,
            s.epoch_length == epoch_length,
            s.mode == mode,
            s.manager().finalized_chain@ == seq![genesis_signed()],
            s.manager().finalized_chain_length == 1,
            s.manager().notarized() == seq![seq![genesis_signed()]],
            s.manager().longest_notarized_chain_length == 1,
            s.manager().num_finalizations == 0,
    {
        let keypair = Keypair::generate();
        let pk = keypair.public;
        let mut public_keys: Vec<(String, PublicKey)> = Vec::new();
        public_keys.push((name.clone(), pk));
        let s = StreamletInstance {
            id: 0,
            mode,
            expected_peer_count,
            epoch_length,
            name,
            blockchain_manager: BlockchainManager::new(),
            pending_transactions: VecDeque::new(),
            keypair,
            public_keys,
            sorted_peer_names: Vec::new(),
            compromise_type: CompromiseType::NoCompromise,
        };
        assert(peer_names(s.public_keys@).len() == 1);
        assert(s.pending() =~= Seq::<Seq<u8>>::empty());
        s
    }

    /// The node's public key.
    pub fn get_public_key(&self) -> (pk: PublicKey)
        ensures
            pk == self.keys().public,
    {
        self.keypair.public
    }

    /// The operation mode.
    pub fn mode(&self) -> (m: OperationMode)
        ensures
            m == self.mode,
    {
        self.mode
    }

    /// The epoch length, in seconds.
    pub fn epoch_length(&self) -> (n: u64)
        ensures
            n == self.epoch_length,
    {
        self.epoch_length
    }

    /// The number of peers the node expects (itself excluded).
    pub fn expected_peer_count(&self) -> (n: usize)
        ensures
            n == self.expected_peers(),
    {
        self.expected_peer_count
    }

    /// The node's chain manager, for inspection.
    pub fn blockchain_manager(&self) -> (m: &BlockchainManager)
        ensures
            *m == self.manager(),
    {
        &self.blockchain_manager
    }

    /// The number of payloads waiting to be proposed.
    pub fn pending_count(&self) -> (n: usize)
        ensures
            n == self.pending().len(),
    {
        self.pending_transactions.len()
    }

    /// A copy of the newest finalized block and its signatures.
    pub fn get_latest_finalized_block(&self) -> (r: (Block, Vec<Signature>))
        requires
            self.wf(),
        ensures
            r.0@ == self.manager().finalized_chain@.last().block,
            sigs_view(r.1@) == self.manager().finalized_chain@.last().signatures,
    {
        let (block, signatures) = self.blockchain_manager.get_latest_finalized_block();
        (block.clone(), crate::blockchain::block::copy_signatures(signatures))
    }

    /// Signs bytes with the node's key.
    pub fn sign(&self, bytes: &[u8]) -> (sig: Signature)
        requires
            self.wf(),
        ensures
            sig@ == ed25519_signature(self.keys().secret@, bytes@),
            ed25519_verifies(self.keys().public@, bytes@, sig@),
    {
        self.keypair.sign(bytes)
    }

    /// Signs the message's payload and adds the signature, unless this
    /// node's signature is already on it (then nothing changes).
    pub fn sign_message(&self, message: &mut Message) -> (r: Option<Signature>)
        requires
            self.wf(),
        ensures
            ({
                let sig = ed25519_signature(self.keys().secret@, payload_bytes(old(message).payload));
                if sigs_view(old(message).signatures@).contains(sig) {
                    &&& r.is_none()
                    &&& *final(message) == *old(message)
                } else {
                    &&& r.is_some()
                    &&& r.unwrap()@ == sig
                    &&& final(message).signatures@ == old(message).signatures@.push(r.unwrap())
                    &&& final(message).payload == old(message).payload
                    &&& final(message).kind == old(message).kind
                    &&& final(message).nonce == old(message).nonce
                    &&& final(message).tag == old(message).tag
                    &&& final(message).sender_id == old(message).sender_id
                    &&& final(message).sender_name == old(message).sender_name
                }
            }),
            r.is_some() ==> ed25519_verifies(self.keys().public@, payload_bytes(old(message).payload), r.unwrap()@),
    {
        let bytes = message.serialize_payload();
        let signature = self.sign(bytes.as_slice());
        let mut i: usize = 0;
        while i < message.signatures.len()
            invariant
                i <= message.signatures@.len(),
                *message == *old(message),
                signature@ == ed25519_signature(self.keys().secret@, payload_bytes(old(message).payload)),
                ed25519_verifies(self.keys().public@, payload_bytes(old(message).payload), signature@),
                forall|j: int| 0 <= j < i ==> message.signatures@[j]@ != signature@,
            decreases message.signatures@.len() - i,
        {
            if signature_equal(&signature, &message.signatures[i]) {
                assert(sigs_view(message.signatures@)[i as int] == signature@);
                assert(sigs_view(old(message).signatures@).contains(signature@));
                assert(signature@ == ed25519_signature(self.keys().secret@, payload_bytes(old(message).payload)));
                return None;
            }
            i = i + 1;
        }
        proof {
            assert forall|j: int| 0 <= j < sigs_view(message.signatures@).len() implies sigs_view(
                message.signatures@,
            )[j] != signature@ by {
                assert(sigs_view(message.signatures@)[j] == message.signatures@[j]@);
            }
        }
        message.sign_message(signature);
        Some(signature)
    }

    /// Whether `signature` is a valid signature of the message's payload under `pk`.
    fn verify_signature(&self, message: &Message, signature: &Signature, pk: &PublicKey) -> (ok: bool)
        ensures
            ok == ed25519_verifies(pk@, payload_bytes(message.payload), signature@),
    {
        let bytes = message.serialize_payload();
        pk.verify(bytes.as_slice(), signature)
    }

    /// The number of the message's signatures that are valid under distinct
    /// known keys: each signature is matched with the first key, not matched
    /// before, that it verifies under.
    pub fn verify_message(&self, message: &Message) -> (n: usize)
        ensures
            n == valid_signature_count(self.known_keys(), message.signatures@, payload_bytes(message.payload)),
    {
        let bytes = message.serialize_payload();
        let ghost msg = bytes@;
        let keys = &self.public_keys;
        let mut used: Vec<bool> = Vec::new();
        let mut z: usize = 0;
        while z < keys.len()
            invariant
                z <= keys@.len(),
                used@ == Seq::new(z as nat, |i: int| false),
            decreases keys@.len() - z,
        {
            used.push(false);
            assert(used@ =~= Seq::new((z + 1) as nat, |i: int| false));
            z = z + 1;
        }
        let mut num_valid_signatures: usize = 0;
        let mut s: usize = 0;
        proof {
            assert(message.signatures@.take(0) =~= Seq::<Signature>::empty());
        }
        while s < message.signatures.len()
            invariant
                s <= message.signatures@.len(),
                msg == payload_bytes(message.payload),
                keys@ == self.known_keys(),
                (num_valid_signatures as nat, used@) == tally(keys@, message.signatures@.take(s as int), msg),
            decreases message.signatures@.len() - s,
        {
            proof {
                lemma_tally(keys@, message.signatures@.take(s as int), msg);
                lemma_valid_signature_count_bounded(keys@, message.signatures@.take(s as int), msg);
                assert(message.signatures@.take(s + 1).drop_last() =~= message.signatures@.take(s as int));
                assert(message.signatures@.take(s + 1).last() == message.signatures@[s as int]);
            }
            let signature = &message.signatures[s];
            let mut k: usize = 0;
            let mut found = false;
            while k < keys.len() && !found
                invariant
                    k <= keys@.len(),
                    used@.len() == keys@.len(),
                    !found ==> first_verifying(keys@, used@, msg, signature@, 0) == first_verifying(
                        keys@,
                        used@,
                        msg,
                        signature@,
                        k as int,
                    ),
                    found ==> k < keys@.len() && first_verifying(keys@, used@, msg, signature@, 0) == Some(
                        k as int,
                    ),
                    msg == payload_bytes(message.payload),
                decreases keys@.len() - k + (if found { 0int } else { 1int }),
            {
                if !used[k] && self.verify_signature(message, signature, &keys[k].1) {
                    found = true;
                } else {
                    k = k + 1;
                }
            }
            if found {
                num_valid_signatures = num_valid_signatures + 1;
                used.set(k, true);
            }
            s = s + 1;
        }
        assert(message.signatures@.take(s as int) =~= message.signatures@);
        num_valid_signatures
    }

    /// Whether the message carries valid signatures from at least two thirds
    /// (rounded up) of the expected nodes, this node included.
    pub fn is_notarized(&self, message: &Message) -> (r: bool)
        ensures
            r == (valid_signature_count(self.known_keys(), message.signatures@, payload_bytes(message.payload))
                >= notarization_threshold(self.expected_peers() as nat + 1)),
    {
        let n: u128 = self.expected_peer_count as u128 + 1;
        let threshold: u128 = (2 * n + 2) / 3;
        (self.verify_message(message) as u128) >= threshold
    }
}

/// The payloads without those equal to `d`, in their order.
pub open spec fn without_payload(s: Seq<Seq<u8>>, d: Seq<u8>) -> Seq<Seq<u8>>
    decreases s.len(),
{
    if s.len() == 0 {
        s
    } else if s.last() == d {
        without_payload(s.drop_last(), d)
    } else {
        without_payload(s.drop_last(), d).push(s.last())
    }
}

/// The names that are not empty, in their order.
pub open spec fn nonempty_names(s: Seq<Seq<char>>) -> Seq<Seq<char>>
    decreases s.len(),
{
    if s.len() == 0 {
        s
    } else if s.last().len() == 0 {
        nonempty_names(s.drop_last())
    } else {
        nonempty_names(s.drop_last()).push(s.last())
    }
}

/// Two thirds of `n` nodes, rounded up: the threshold is the fewest
/// signatures `k` with `3 * k >= 2 * n`.
pub proof fn lemma_notarization_threshold(n: nat)
    ensures
        3 * notarization_threshold(n) >= 2 * n,
        3 * (notarization_threshold(n) - 1) < 2 * n,
{
}

/// Dropping a payload from a queue keeps exactly the other payloads, in
/// their order: the result is the queue filtered to the payloads not equal
/// to `d`, so none of it equals `d`.
pub proof fn lemma_without_payload(s: Seq<Seq<u8>>, d: Seq<u8>)
    ensures
        without_payload(s, d) == s.filter(|x: Seq<u8>| x != d),
        forall|i: int| 0 <= i < without_payload(s, d).len() ==> #[trigger] without_payload(s, d)[i] != d,
    decreases s.len(),
{
    reveal(Seq::filter);
    if s.len() > 0 {
        lemma_without_payload(s.drop_last(), d);
        let prev = without_payload(s.drop_last(), d);
        if s.last() != d {
            assert forall|i: int| 0 <= i < prev.push(s.last()).len() implies #[trigger] prev.push(s.last())[i] != d by {
                if i < prev.len() {
                    assert(prev.push(s.last())[i] == prev[i]);
                }
            }
        }
    }
}

/// The names kept for leader election are exactly the non-empty ones, in
/// their order: none of them is empty.
pub proof fn lemma_nonempty_names(s: Seq<Seq<char>>)
    ensures
        nonempty_names(s) == s.filter(|x: Seq<char>| x.len() > 0),
        forall|i: int| 0 <= i < nonempty_names(s).len() ==> (#[trigger] nonempty_names(s)[i]).len() > 0,
    decreases s.len(),
{
    reveal(Seq::filter);
    if s.len() > 0 {
        lemma_nonempty_names(s.drop_last());
        let prev = nonempty_names(s.drop_last());
        if s.last().len() > 0 {
            assert forall|i: int| 0 <= i < prev.push(s.last()).len() implies (#[trigger] prev.push(
                s.last(),
            )[i]).len() > 0 by {
                if i < prev.len() {
                    assert(prev.push(s.last())[i] == prev[i]);
                }
            }
        }
    }
}

/// The size of each benchmark transaction.
pub open spec fn benchmark_size(t: BenchmarkDataType) -> nat {
    match t {
        BenchmarkDataType::Small => 1,
        BenchmarkDataType::Medium => 1000,
        BenchmarkDataType::Large => 10000,
    }
}

/// Some notarized chain ends in the block whose hash is `parent`.
pub open spec fn extends_a_head(m: BlockchainManager, parent: Seq<u8>) -> bool {
    exists|i: int| 0 <= i < m.notarized().len() && (#[trigger] m.notarized()[i]).last().block.hash == parent
}

proof fn lemma_key_of_push(s: Seq<(String, PublicKey)>, x: (String, PublicKey), n: Seq<char>)
    ensures
        key_of(s.push(x), n) == if key_of(s, n).is_some() {
            key_of(s, n)
        } else if x.0@ == n {
            Some(x.1)
        } else {
            None
        },
    decreases s.len(),
{
    reveal_with_fuel(key_of, 2);
    if s.len() > 0 {
        assert(s.push(x)[0] == s[0]);
        assert(s.push(x).drop_first() =~= s.drop_first().push(x));
        lemma_key_of_push(s.drop_first(), x, n);
    } else {
        assert(s.push(x)[0] == x);
        assert(s.push(x).drop_first() =~= Seq::<(String, PublicKey)>::empty());
    }
}

proof fn lemma_key_of_update(s: Seq<(String, PublicKey)>, i: int, pk: PublicKey, n: Seq<char>)
    requires
        0 <= i < s.len(),
        forall|j: int| 0 <= j < i ==> s[j].0@ != s[i].0@,
    ensures
        key_of(s.update(i, (s[i].0, pk)), n) == if n == s[i].0@ {
            Some(pk)
        } else {
            key_of(s, n)
        },
    decreases s.len(),
{
    if i == 0 {
        assert(s.update(i, (s[i].0, pk)).drop_first() =~= s.drop_first());
    } else {
        assert(s.update(i, (s[i].0, pk))[0] == s[0]);
        assert(s.update(i, (s[i].0, pk)).drop_first() =~= s.drop_first().update(i - 1, (s[i].0, pk)));
        assert forall|j: int| 0 <= j < i - 1 implies (#[trigger] s.drop_first()[j]).0@ != s.drop_first()[i - 1].0@ by {
            assert(s[j + 1].0@ != s[i].0@);
        }
        lemma_key_of_update(s.drop_first(), i - 1, pk, n);
        assert(s[0].0@ != s[i].0@);
    }
}

impl StreamletInstance {
    /// The name of the leader of `epoch`.
    pub open spec fn epoch_leader(&self, epoch: u64) -> String {
        self.sorted_peer_names@[leader_index(epoch, self.expected_peer_count)]
    }

    /// The leader of `epoch` can be looked up: the node expects fewer than
    /// `usize::MAX` peers and its list of names reaches the leader's position.
    pub open spec fn leader_known(&self, epoch: u64) -> bool {
        &&& self.expected_peer_count < usize::MAX
        &&& leader_index(epoch, self.expected_peer_count) < self.sorted_peer_names@.len()
    }

    /// Whether the leader of `epoch` can be looked up: see `leader_known`.
    pub fn leader_is_known(&self, epoch: u64) -> (r: bool)
        ensures
            r == self.leader_known(epoch),
    {
        if self.expected_peer_count == usize::MAX {
            return false;
        }
        let result = default_hash_u64(epoch) as usize;
        let leader_index = result % (self.expected_peer_count + 1);
        leader_index < self.sorted_peer_names.len()
    }

    /// The message's first signature is the epoch leader's signature of its payload.
    pub open spec fn signed_by_leader(&self, epoch: u64, message: Message) -> bool {
        match key_of(self.public_keys@, self.epoch_leader(epoch)@) {
            None => false,
            Some(pk) => message.signatures@.len() >= 1 && ed25519_verifies(
                pk@,
                payload_bytes(message.payload),
                message.signatures@[0]@,
            ),
        }
    }

    /// The leader of `epoch`: the name at the position that the default hash
    /// of the epoch picks among the expected nodes.
    pub fn get_epoch_leader(&self, epoch: u64) -> (leader: &String)
        requires
            self.leader_known(epoch),
        ensures
            *leader == self.epoch_leader(epoch),
    {
        let result = default_hash_u64(epoch) as usize;
        let leader_index = result % (self.expected_peer_count + 1);
        &self.sorted_peer_names[leader_index]
    }

    /// Whether the message's first signature is the epoch leader's (false
    /// when the leader's key is unknown or the message is unsigned).
    fn check_from_leader(&self, epoch: u64, message: &Message) -> (r: bool)
        requires
            self.leader_known(epoch),
        ensures
            r == self.signed_by_leader(epoch, *message),
    {
        let leader = self.get_epoch_leader(epoch);
        match lookup_key(&self.public_keys, leader) {
            None => false,
            Some((_, leader_pk)) => {
                if message.signatures.len() >= 1 {
                    self.verify_signature(message, &message.signatures[0], &leader_pk)
                } else {
                    false
                }
            },
        }
    }

    /// Signs a block proposal or vote and decides whether this is a vote to
    /// cast: the message must carry the epoch leader's signature, its block
    /// must belong to this epoch and extend the newest block of some
    /// notarized chain, and its data must be acceptable. The node then signs
    /// (unless its signature is already on the message) and votes if it has
    /// not voted this epoch or this is its own vote again.
    pub fn should_vote(
        &mut self,
        message: &mut Message,
        vote_this_epoch: Option<Signature>,
        epoch: u64,
        block: &Block,
        app_interface: &AppInterface,
    ) -> (r: Option<Signature>)
        requires
            old(self).wf(),
            old(self).leader_known(epoch),
        ensures
            *final(self) == *old(self),
            ({
                let eligible = old(self).signed_by_leader(epoch, *old(message)) && block.epoch == epoch
                    && extends_a_head(old(self).manager(), block.parent_hash@)
                    && app_interface.data_is_valid_spec(*old(message));
                let sig = ed25519_signature(old(self).keys().secret@, payload_bytes(old(message).payload));
                if !eligible || sigs_view(old(message).signatures@).contains(sig) {
                    &&& r.is_none()
                    &&& *final(message) == *old(message)
                } else {
                    &&& final(message).signatures@.len() == old(message).signatures@.len() + 1
                    &&& final(message).signatures@.drop_last() == old(message).signatures@
                    &&& final(message).signatures@.last()@ == sig
                    &&& final(message).payload == old(message).payload
                    &&& final(message).kind == old(message).kind
                    &&& final(message).nonce == old(message).nonce
                    &&& final(message).tag == old(message).tag
                    &&& final(message).sender_id == old(message).sender_id
                    &&& final(message).sender_name == old(message).sender_name
                    &&& r == if vote_this_epoch.is_none() || vote_this_epoch.unwrap()@ == sig {
                        Some(final(message).signatures@.last())
                    } else {
                        None::<Signature>
                    }
                }
            }),
            r.is_some() && vote_this_epoch.is_some() ==> r.unwrap()@ == vote_this_epoch.unwrap()@,
    {
        if !self.check_from_leader(epoch, message) || block.epoch != epoch
            || self.blockchain_manager.index_of_ancestor_chain(block.clone()).is_none()
            || !app_interface.data_is_valid(message) {
            return None;
        }
        let sig = self.sign_message(message);
        if let Some(signature_value) = sig {
            assert(message.signatures@.drop_last() =~= old(message).signatures@);
            let matches_vote = match vote_this_epoch {
                None => true,
                Some(v) => signature_equal(&v, &signature_value),
            };
            if matches_vote {
                return Some(signature_value);
            }
        }
        None
    }

    /// Records `pk` as the public key of `instance_name`, replacing any key
    /// recorded for that name.
    pub fn add_public_key(&mut self, instance_name: String, pk: &PublicKey)
        requires
            old(self).wf(),
        ensures
            final(self).wf(),
            key_of(final(self).known_keys(), instance_name@) == Some(*pk),
            forall|n: Seq<char>|
                n != instance_name@ ==> key_of(final(self).known_keys(), n) == key_of(old(self).known_keys(), n),
            final(self).known_keys().len() == old(self).known_keys().len() || final(self).known_keys()
                == old(self).known_keys().push((instance_name, *pk)),
            final(self).keypair == old(self).keypair,
            final(self).blockchain_manager == old(self).blockchain_manager,
            final(self).pending_transactions == old(self).pending_transactions,
            final(self).sorted_peer_names == old(self).sorted_peer_names,
            final(self).expected_peer_count == old(self).expected_peer_count,
            final(self).id == old(self).id,
            final(self).name == old(self).name,
            final(self).mode == old(self).mode,
            final(self).epoch_length == old(self).epoch_length,
            final(self).compromise_type == old(self).compromise_type,
    {
        let ghost old_keys = self.public_keys@;
        match lookup_key(&self.public_keys, &instance_name) {
            Some((i, _)) => {
                let entry_name = self.public_keys[i].0.clone();
                let ghost first = self.public_keys@[i as int].0;
                self.public_keys.set(i, (entry_name, *pk));
                proof {
                    assert(peer_names(self.public_keys@) =~= peer_names(old_keys));
                    assert forall|n: Seq<char>| true implies key_of(self.public_keys@, n) == key_of(
                        old_keys.update(i as int, (first, *pk)),
                        n,
                    ) by {
                        lemma_key_of_same_names(self.public_keys@, old_keys.update(i as int, (first, *pk)), n);
                    }
                    assert forall|n: Seq<char>| true implies key_of(
                        old_keys.update(i as int, (first, *pk)),
                        n,
                    ) == (if n == old_keys[i as int].0@ { Some(*pk) } else { key_of(old_keys, n) }) by {
                        lemma_key_of_update(old_keys, i as int, *pk, n);
                    }
                }
            },
            None => {
                let ghost x = (instance_name, *pk);
                self.public_keys.push((instance_name, *pk));
                proof {
                    assert(peer_names(self.public_keys@) =~= peer_names(old_keys).push(x.0@));
                    assert forall|n: Seq<char>| true implies key_of(self.public_keys@, n) == (if key_of(
                        old_keys,
                        n,
                    ).is_some() {
                        key_of(old_keys, n)
                    } else if x.0@ == n {
                        Some(x.1)
                    } else {
                        None
                    }) by {
                        lemma_key_of_push(old_keys, x, n);
                    }
                }
            },
        }
    }

    /// Adds `num_elements` payloads of random bytes, each of the benchmark
    /// size, to the pending transactions.
    pub fn fill_pending_transactions(&mut self, num_elements: u64, data_type: &BenchmarkDataType)
        ensures
            final(self).pending().len() == old(self).pending().len() + num_elements,
            final(self).pending().take(old(self).pending().len() as int) == old(self).pending(),
            forall|i: int|
                old(self).pending().len() <= i < final(self).pending().len() ==> (
                #[trigger] final(self).pending()[i]).len() == benchmark_size(*data_type),
            final(self).keypair == old(self).keypair,
            final(self).blockchain_manager == old(self).blockchain_manager,
            final(self).public_keys == old(self).public_keys,
            final(self).sorted_peer_names == old(self).sorted_peer_names,
            final(self).expected_peer_count == old(self).expected_peer_count,
            final(self).compromise_type == old(self).compromise_type,
    {
        let size: usize = match data_type {
            BenchmarkDataType::Small => 1,
            BenchmarkDataType::Medium => 1000,
            BenchmarkDataType::Large => 10000,
        };
        let mut e: u64 = 0;
        while e < num_elements
            invariant
                e <= num_elements,
                size == benchmark_size(*data_type),
                self.pending().len() == old(self).pending().len() + e,
                self.pending().take(old(self).pending().len() as int) == old(self).pending(),
                forall|i: int|
                    old(self).pending().len() <= i < self.pending().len() ==> (#[trigger] self.pending()[i]).len()
                        == size,
                self.keypair == old(self).keypair,
                self.blockchain_manager == old(self).blockchain_manager,
                self.public_keys == old(self).public_keys,
                self.sorted_peer_names == old(self).sorted_peer_names,
                self.expected_peer_count == old(self).expected_peer_count,
                self.compromise_type == old(self).compromise_type,
            decreases num_elements - e,
        {
            let mut data: Vec<u8> = Vec::new();
            let mut b: usize = 0;
            while b < size
                invariant
                    b <= size,
                    data@.len() == b,
                decreases size - b,
            {
                data.push(random_u8());
                b = b + 1;
            }
            let ghost before = self.pending();
            self.pending_transactions.push_back(data);
            proof {
                assert(self.pending() =~= before.push(data@));
                assert(self.pending().take(old(self).pending().len() as int) =~= before.take(
                    old(self).pending().len() as int,
                ));
            }
            e = e + 1;
        }
    }

    /// Removes every pending transaction equal to `data`.
    fn remove_pending(&mut self, data: &Vec<u8>)
        ensures
            final(self).pending() == without_payload(old(self).pending(), data@),
            forall|i: int| 0 <= i < final(self).pending().len() ==> #[trigger] final(self).pending()[i] != data@,
            final(self).keypair == old(self).keypair,
            final(self).blockchain_manager == old(self).blockchain_manager,
            final(self).public_keys == old(self).public_keys,
            final(self).sorted_peer_names == old(self).sorted_peer_names,
            final(self).expected_peer_count == old(self).expected_peer_count,
            final(self).compromise_type == old(self).compromise_type,
            final(self).id == old(self).id,
            final(self).name == old(self).name,
            final(self).mode == old(self).mode,
            final(self).epoch_length == old(self).epoch_length,
    {
        let ghost orig = self.pending();
        let mut kept: VecDeque<Vec<u8>> = VecDeque::new();
        let ghost mut k: int = 0;
        assert(orig.take(0) =~= Seq::<Seq<u8>>::empty());
        assert(kept@.map_values(|v: Vec<u8>| v@) =~= Seq::<Seq<u8>>::empty());
        while self.pending_transactions.len() > 0
            invariant
                0 <= k <= orig.len(),
                self.pending() == orig.skip(k),
                kept@.map_values(|v: Vec<u8>| v@) == without_payload(orig.take(k), data@),
                self.keypair == old(self).keypair,
                self.blockchain_manager == old(self).blockchain_manager,
                self.public_keys == old(self).public_keys,
                self.sorted_peer_names == old(self).sorted_peer_names,
                self.expected_peer_count == old(self).expected_peer_count,
                self.compromise_type == old(self).compromise_type,
                self.id == old(self).id,
                self.name == old(self).name,
                self.mode == old(self).mode,
                self.epoch_length == old(self).epoch_length,
            decreases self.pending_transactions@.len(),
        {
            let ghost before = self.pending_transactions@;
            let ghost kept_before = kept@.map_values(|v: Vec<u8>| v@);
            proof {
                assert(before.map_values(|v: Vec<u8>| v@).len() == before.len());
                assert(k < orig.len());
                assert(before.map_values(|v: Vec<u8>| v@)[0] == before[0]@);
            }
            let front = self.pending_transactions.pop_front();
            proof {
                assert(self.pending_transactions@ == before.drop_first());
                lemma_payloads_drop_first(before);
                assert(orig.skip(k).drop_first() =~= orig.skip(k + 1));
                assert(self.pending() =~= orig.skip(k + 1));
                assert(orig.take(k + 1).drop_last() =~= orig.take(k));
                assert(orig.take(k + 1).last() == orig[k]);
                assert(orig.skip(k)[0] == orig[k]);
            }
            match front {
                Some(x) => {
                    assert(x@ == orig[k]);
                    if !crate::crypto::bytes_equal(x.as_slice(), data.as_slice()) {
                        kept.push_back(x);
                        assert(kept@.map_values(|v: Vec<u8>| v@) =~= kept_before.push(orig[k]));
                    }
                },
                None => {},
            }
            proof {
                k = k + 1;
            }
        }
        assert(orig.skip(k).len() == 0);
        assert(orig.take(k) =~= orig);
        self.pending_transactions = kept;
        proof {
            lemma_without_payload(orig, data@);
        }
    }

    /// Rebuilds the names used for leader election: the names of all known
    /// keys that are not empty, in ascending order.
    fn refresh_leader_names(&mut self)
        ensures
            string_views(final(self).sorted_peer_names@).to_multiset() == nonempty_names(
                peer_names(old(self).public_keys@),
            ).to_multiset(),
            names_sorted(final(self).sorted_peer_names@),
            forall|i: int|
                0 <= i < final(self).sorted_peer_names@.len() ==> (#[trigger] final(self).sorted_peer_names@[i])@.len()
                    > 0,
            final(self).keypair == old(self).keypair,
            final(self).blockchain_manager == old(self).blockchain_manager,
            final(self).public_keys == old(self).public_keys,
            final(self).pending_transactions == old(self).pending_transactions,
            final(self).expected_peer_count == old(self).expected_peer_count,
            final(self).compromise_type == old(self).compromise_type,
            final(self).id == old(self).id,
            final(self).name == old(self).name,
            final(self).mode == old(self).mode,
            final(self).epoch_length == old(self).epoch_length,
    {
        let mut names: Vec<String> = Vec::new();
        let mut i: usize = 0;
        while i < self.public_keys.len()
            invariant
                i <= self.public_keys@.len(),
                string_views(names@) == nonempty_names(peer_names(self.public_keys@).take(i as int)),
            decreases self.public_keys@.len() - i,
        {
            proof {
                assert(peer_names(self.public_keys@).take(i + 1).drop_last() =~= peer_names(
                    self.public_keys@,
                ).take(i as int));
                assert(peer_names(self.public_keys@).take(i + 1).last() == self.public_keys@[i as int].0@);
            }
            if !self.public_keys[i].0.as_str().is_empty() {
                let ghost before = string_views(names@);
                names.push(self.public_keys[i].0.clone());
                assert(string_views(names@) =~= before.push(self.public_keys@[i as int].0@));
            }
            i = i + 1;
        }
        assert(peer_names(self.public_keys@).take(i as int) =~= peer_names(self.public_keys@));
        self.sorted_peer_names = sorted_names(names);
        proof {
            let kept = nonempty_names(peer_names(self.public_keys@));
            let sorted = string_views(self.sorted_peer_names@);
            lemma_nonempty_names(peer_names(self.public_keys@));
            assert forall|i: int| 0 <= i < self.sorted_peer_names@.len() implies (
            #[trigger] self.sorted_peer_names@[i])@.len() > 0 by {
                broadcast use vstd::seq_lib::group_to_multiset_ensures;

                assert(sorted[i] == self.sorted_peer_names@[i]@);
                assert(sorted.contains(sorted[i]));
                assert(kept.to_multiset().count(sorted[i]) > 0);
                let j = choose|j: int| 0 <= j < kept.len() && kept[j] == sorted[i];
                assert(kept[j].len() > 0);
            }
        }
    }
}

proof fn lemma_payloads_drop_first(s: Seq<Vec<u8>>)
    requires
        s.len() > 0,
    ensures
        s.drop_first().map_values(|v: Vec<u8>| v@) == s.map_values(|v: Vec<u8>| v@).drop_first(),
{
    assert(s.drop_first().map_values(|v: Vec<u8>| v@) =~= s.map_values(|v: Vec<u8>| v@).drop_first());
}

proof fn lemma_key_of_same_names(a: Seq<(String, PublicKey)>, b: Seq<(String, PublicKey)>, n: Seq<char>)
    requires
        a.len() == b.len(),
        forall|j: int| 0 <= j < a.len() ==> a[j].0@ == b[j].0@ && a[j].1 == b[j].1,
    ensures
        key_of(a, n) == key_of(b, n),
    decreases a.len(),
{
    if a.len() > 0 {
        lemma_key_of_same_names(a.drop_first(), b.drop_first(), n);
    }
}

/// What a line typed by the operator asks of the node's surroundings.
#[derive(Debug, Clone, Copy, PartialEq, Eq, Structural)]
pub enum UserCommandOutcome {
    /// Print the notarized chains.
    PrintNotarizedChains,
    /// Print the finalized chain.
    PrintFinalizedChain,
    /// Nothing to do outside the node.
    Nothing,
}

/// What the start of an epoch calls for.
#[derive(Debug)]
pub enum EpochOutcome {
    /// A benchmark has run all its epochs: record the results and stop.
    BenchmarkComplete,
    /// This node proposes this payload (after the epoch delay).
    Propose(Vec<u8>),
    /// Nothing to do this epoch.
    Idle,
}

/// The bytes of `line` begin with the bytes of `prefix`.
pub open spec fn has_prefix(line: Seq<char>, prefix: Seq<char>) -> bool {
    bytes_prefix(vstd::utf8::encode_utf8(prefix), vstd::utf8::encode_utf8(line))
}

/// The line asks to end peer discovery.
pub open spec fn is_end_init_command(line: Seq<char>) -> bool {
    has_prefix(line, "end init"@) || has_prefix(line, "e i"@) || has_prefix(line, "end discovery"@)
        || has_prefix(line, "e d"@)
}

/// The compromise that a line sets, if it sets one (the first of the
/// commands, in the order they are checked, that the line begins with).
pub open spec fn compromise_command(line: Seq<char>) -> Option<CompromiseType> {
    if has_prefix(line, "compromise early-epoch"@) || has_prefix(line, "ee"@) {
        Some(CompromiseType::EarlyEpoch)
    } else if has_prefix(line, "compromise late-epoch"@) || has_prefix(line, "le"@) {
        Some(CompromiseType::LateEpoch)
    } else if has_prefix(line, "compromise no-propose"@) || has_prefix(line, "np"@) {
        Some(CompromiseType::NoPropose)
    } else if has_prefix(line, "compromise wrong-parent-hash"@) || has_prefix(line, "wp"@) {
        Some(CompromiseType::WrongParentHash)
    } else if has_prefix(line, "compromise no-vote"@) || has_prefix(line, "nv"@) {
        Some(CompromiseType::NoVote)
    } else if has_prefix(line, "compromise non-leader-propose"@) || has_prefix(line, "nlp"@) {
        Some(CompromiseType::NonLeaderPropose)
    } else {
        None
    }
}

/// The epoch a proposing node writes into its block.
pub open spec fn proposal_epoch(c: CompromiseType, epoch: u64) -> int {
    if c == CompromiseType::EarlyEpoch {
        0
    } else if c == CompromiseType::LateEpoch {
        epoch + 50
    } else {
        epoch as int
    }
}

impl StreamletInstance {
    /// Acts on a line typed by the operator: "init" advertises the node;
    /// "end init", "e i", "end discovery" or "e d" ends peer discovery;
    /// "notarized chains"/"nc" and "finalized chain"/"fc" ask for the chains
    /// to be printed; the compromise commands set the node's misbehaviour.
    pub fn on_user_input(&mut self, line: &str, peers: &mut Peers, net_stack: &mut NetworkStack) -> (out: UserCommandOutcome)
        ensures
            *final(peers) == *old(peers),
            final(self).keypair == old(self).keypair,
            final(self).blockchain_manager == old(self).blockchain_manager,
            final(self).public_keys == old(self).public_keys,
            final(self).pending_transactions == old(self).pending_transactions,
            final(self).sorted_peer_names == old(self).sorted_peer_names,
            final(self).expected_peer_count == old(self).expected_peer_count,
            final(self).id == old(self).id,
            final(self).name == old(self).name,
            final(self).mode == old(self).mode,
            final(self).epoch_length == old(self).epoch_length,
            final(net_stack).topic == old(net_stack).topic,
            final(net_stack).init_topic == old(net_stack).init_topic,
            final(net_stack).pending@.take(old(net_stack).pending@.len() as int) == old(net_stack).pending@,
            final(net_stack).init_open == (old(net_stack).init_open && !is_end_init_command(line@)),
            final(net_stack).pending@.len() == old(net_stack).pending@.len() + (if has_prefix(line@, "init"@)
                && old(net_stack).init_open {
                1int
            } else {
                0int
            }) + (if is_end_init_command(line@) && old(net_stack).init_open {
                2int
            } else {
                0int
            }),
            has_prefix(line@, "init"@) && old(net_stack).init_open ==> exists|m: Message|
                is_publish(final(net_stack).pending@[old(net_stack).pending@.len() as int], old(net_stack).init_topic@, m)
                    && advertises(
                    m,
                    old(peers).node_name@,
                    old(peers).node_name@,
                    old(peers).node_id,
                    old(peers).public_key,
                    peer_names(old(peers).peer_list@),
                    false,
                ),
            is_end_init_command(line@) && old(net_stack).init_open ==> {
                &&& exists|m: Message|
                    is_publish(
                        final(net_stack).pending@[final(net_stack).pending@.len() - 2],
                        old(net_stack).init_topic@,
                        m,
                    ) && advertises(
                        m,
                        Seq::empty(),
                        old(peers).node_name@,
                        old(peers).node_id,
                        old(peers).public_key,
                        Seq::empty(),
                        true,
                    )
                &&& is_unsubscribe(final(net_stack).pending@.last(), old(net_stack).init_topic@)
            },
            out == if is_end_init_command(line@) {
                UserCommandOutcome::Nothing
            } else if has_prefix(line@, "notarized chains"@) || has_prefix(line@, "nc"@) {
                UserCommandOutcome::PrintNotarizedChains
            } else if has_prefix(line@, "finalized chain"@) || has_prefix(line@, "fc"@) {
                UserCommandOutcome::PrintFinalizedChain
            } else {
                UserCommandOutcome::Nothing
            },
            final(self).compromise_type == if is_end_init_command(line@) || has_prefix(
                line@,
                "notarized chains"@,
            ) || has_prefix(line@, "nc"@) || has_prefix(line@, "finalized chain"@) || has_prefix(
                line@,
                "fc"@,
            ) {
                old(self).compromise_type
            } else {
                match compromise_command(line@) {
                    Some(c) => c,
                    None => old(self).compromise_type,
                }
            },
    {
        let ghost start = net_stack.pending@;
        if starts_with(line, "init") {
            peers.advertise_self(net_stack);
        }
        let ghost mid = net_stack.pending@;
        assert(mid.take(start.len() as int) =~= start);
        if starts_with(line, "end init") || starts_with(line, "e i") || starts_with(line, "end discovery")
            || starts_with(line, "e d") {
            peers.send_end_init(net_stack);
            assert(net_stack.pending@.take(start.len() as int) =~= mid.take(start.len() as int));
            return UserCommandOutcome::Nothing;
        } else if starts_with(line, "notarized chains") || starts_with(line, "nc") {
            return UserCommandOutcome::PrintNotarizedChains;
        } else if starts_with(line, "finalized chain") || starts_with(line, "fc") {
            return UserCommandOutcome::PrintFinalizedChain;
        } else if starts_with(line, "compromise early-epoch") || starts_with(line, "ee") {
            self.compromise_type = CompromiseType::EarlyEpoch
        } else if starts_with(line, "compromise late-epoch") || starts_with(line, "le") {
            self.compromise_type = CompromiseType::LateEpoch
        } else if starts_with(line, "compromise no-propose") || starts_with(line, "np") {
            self.compromise_type = CompromiseType::NoPropose
        } else if starts_with(line, "compromise wrong-parent-hash") || starts_with(line, "wp") {
            self.compromise_type = CompromiseType::WrongParentHash
        } else if starts_with(line, "compromise no-vote") || starts_with(line, "nv") {
            self.compromise_type = CompromiseType::NoVote
        } else if starts_with(line, "compromise non-leader-propose") || starts_with(line, "nlp") {
            self.compromise_type = CompromiseType::NonLeaderPropose
        }
        UserCommandOutcome::Nothing
    }

    /// A benchmark has run its epochs when `epoch` begins.
    pub open spec fn benchmark_over(&self, epoch: u64) -> bool {
        self.mode == OperationMode::Benchmark && epoch == NUM_TEST_EPOCHS + 1
    }

    /// Whether `epoch` can begin: the benchmark is over, or the epoch's
    /// leader can be looked up.
    pub fn can_begin_epoch(&self, epoch: u64) -> (r: bool)
        ensures
            r == (self.benchmark_over(epoch) || self.leader_known(epoch)),
    {
        (self.mode == OperationMode::Benchmark && epoch == NUM_TEST_EPOCHS + 1) || self.leader_is_known(epoch)
    }

    /// The start of `epoch`: a benchmark that has run its epochs stops; the
    /// epoch's leader (or a node set to propose out of turn), unless it is set
    /// not to propose, takes the oldest pending payload to propose.
    pub fn begin_epoch(&mut self, epoch: u64) -> (out: EpochOutcome)
        requires
            !old(self).benchmark_over(epoch) ==> old(self).leader_known(epoch),
        ensures
            final(self).keypair == old(self).keypair,
            final(self).blockchain_manager == old(self).blockchain_manager,
            final(self).public_keys == old(self).public_keys,
            final(self).sorted_peer_names == old(self).sorted_peer_names,
            final(self).expected_peer_count == old(self).expected_peer_count,
            final(self).compromise_type == old(self).compromise_type,
            final(self).id == old(self).id,
            final(self).name == old(self).name,
            final(self).mode == old(self).mode,
            final(self).epoch_length == old(self).epoch_length,
            ({
                let finished = old(self).benchmark_over(epoch);
                let proposer = (old(self).epoch_leader(epoch)@ == old(self).name@ || old(self).compromise_type
                    == CompromiseType::NonLeaderPropose) && old(self).compromise_type != CompromiseType::NoPropose;
                if finished {
                    out is BenchmarkComplete && final(self).pending() == old(self).pending()
                } else if proposer && old(self).pending().len() > 0 {
                    &&& out is Propose
                    &&& out->Propose_0@ == old(self).pending()[0]
                    &&& final(self).pending() == old(self).pending().drop_first()
                } else {
                    out is Idle && final(self).pending() == old(self).pending()
                }
            }),
    {
        if self.mode == OperationMode::Benchmark && epoch == NUM_TEST_EPOCHS + 1 {
            return EpochOutcome::BenchmarkComplete;
        }
        let leader = self.get_epoch_leader(epoch);
        let is_leader = crate::text::str_equal(leader.as_str(), self.name.as_str());
        if (is_leader || self.compromise_type == CompromiseType::NonLeaderPropose) && self.compromise_type
            != CompromiseType::NoPropose {
            let ghost before = self.pending_transactions@;
            match self.pending_transactions.pop_front() {
                Some(data) => {
                    proof {
                        assert(self.pending() =~= old(self).pending().drop_first());
                    }
                    return EpochOutcome::Propose(data);
                },
                None => {
                    return EpochOutcome::Idle;
                },
            }
        }
        EpochOutcome::Idle
    }

    /// Proposes `data` in `epoch`: a block on the newest block of a longest
    /// notarized chain (dropping the chains that are not longest), at the
    /// height one past its parent's (the longest notarized length), signed by this node and
    /// broadcast. A node set to misbehave writes a wrong epoch (0 or 50 later)
    /// or scrambles the parent hash. Returns the node's signature, its vote
    /// for the epoch.
    pub fn propose(&mut self, epoch: u64, data: Vec<u8>, net_stack: &mut NetworkStack) -> (sig: Signature)
        requires
            old(self).wf(),
            proposal_fits(data@.len(), old(self).name@),
            old(self).compromise_type == CompromiseType::LateEpoch ==> epoch <= u64::MAX - 50,
        ensures
            final(self).wf(),
            final(self).manager().notarized() == keep_of_len(
                old(self).manager().notarized(),
                old(self).manager().longest_notarized_chain_length as nat,
            ),
            final(self).manager().finalized_chain@ == old(self).manager().finalized_chain@,
            final(self).manager().longest_notarized_chain_length == old(self).manager().longest_notarized_chain_length,
            final(self).keypair == old(self).keypair,
            final(self).public_keys == old(self).public_keys,
            final(self).pending_transactions == old(self).pending_transactions,
            final(self).sorted_peer_names == old(self).sorted_peer_names,
            final(self).expected_peer_count == old(self).expected_peer_count,
            final(self).compromise_type == old(self).compromise_type,
            final(self).id == old(self).id,
            final(self).name == old(self).name,
            final(net_stack).topic == old(net_stack).topic,
            final(net_stack).init_topic == old(net_stack).init_topic,
            final(net_stack).init_open == old(net_stack).init_open,
            final(net_stack).pending@.len() == old(net_stack).pending@.len() + 1,
            final(net_stack).pending@.take(old(net_stack).pending@.len() as int) == old(net_stack).pending@,
            exists|m: Message, b: Block|
                {
                    &&& is_publish(final(net_stack).pending@.last(), old(net_stack).topic@, m)
                    &&& m.kind == MessageKind::Propose
                    &&& m.sender_id == old(self).id
                    &&& m.sender_name@ == old(self).name@
                    &&& m.payload == MessagePayload::Block(b)
                    &&& m.signatures@ == seq![sig]
                    &&& sig@ == ed25519_signature(old(self).keys().secret@, payload_bytes(m.payload))
                    &&& b.epoch == proposal_epoch(old(self).compromise_type, epoch)
                    &&& b.data@ == data@
                    &&& b.height == old(self).manager().longest_notarized_chain_length
                    &&& old(self).compromise_type != CompromiseType::WrongParentHash ==> b.parent_hash@
                        == final(self).manager().notarized()[0].last().block.hash
                    &&& old(self).compromise_type == CompromiseType::WrongParentHash ==> b.parent_hash@.to_multiset()
                        == final(self).manager().notarized()[0].last().block.hash.to_multiset()
                    &&& b.hash@ == crate::blockchain::block::block_hash(b.parent_hash@, b.epoch, data@, b.nonce)
                },
    {
        proof {
            self.blockchain_manager.lemma_wf();
        }
        let height: u64 = self.blockchain_manager.longest_notarized_chain_length as u64;
        let (parent, _) = self.blockchain_manager.head();
        let mut parent_hash = parent.hash;
        if self.compromise_type == CompromiseType::WrongParentHash {
            sort_hash_bytes(&mut parent_hash);
        }
        let block_epoch = if self.compromise_type == CompromiseType::EarlyEpoch {
            0
        } else if self.compromise_type == CompromiseType::LateEpoch {
            epoch + 50
        } else {
            epoch
        };
        let proposed_block = Block::new(block_epoch, parent_hash, data, height, random_u64());
        let ghost b = proposed_block;
        let mut message = Message::new(
            MessagePayload::Block(proposed_block),
            MessageKind::Propose,
            self.id,
            self.name.clone(),
        );
        proof {
            assert(sigs_view(message.signatures@) =~= Seq::<Seq<u8>>::empty());
        }
        let r = self.sign_message(&mut message);
        let signature = r.unwrap();
        proof {
            assert(message.signatures@ =~= seq![signature]);
        }
        let ghost m = message;
        proof {
            lemma_message_bytes_len(m);
            lemma_block_payload_len(b);
        }
        net_stack.broadcast_message(message);
        proof {
            assert(is_publish(net_stack.pending@.last(), old(net_stack).topic@, m));
        }
        signature
    }
}

/// A proposal of `data_len` bytes of data, signed by a node named `name`,
/// fits in one message of at most `MAX_MSG_SIZE` bytes.
pub open spec fn proposal_fits(data_len: nat, name: Seq<char>) -> bool {
    196 + data_len + vstd::utf8::encode_utf8(name).len() <= MAX_MSG_SIZE
}

impl StreamletInstance {
    /// Whether this node's proposal of `data` fits in one message.
    pub fn fits_in_proposal(&self, data: &Vec<u8>) -> (r: bool)
        ensures
            r == proposal_fits(data@.len(), self.name@),
    {
        let name_len = self.name.as_str().as_bytes().len();
        data.len() <= MAX_MSG_SIZE - 196 && name_len <= MAX_MSG_SIZE - 196 - data.len()
    }
}

/// What a message received from the network calls for.
#[derive(Debug)]
pub enum NetworkOutcome {
    /// The node voted: remember its signature as its vote this epoch.
    Voted(Signature),
    /// Peer discovery is done: start the epoch timer.
    StartTimer,
    /// Nothing more to do.
    Nothing,
}

/// The block a payload carries (meaningful for block payloads only).
pub open spec fn block_of(p: MessagePayload) -> Block {
    match p {
        MessagePayload::Block(b) => b,
        _ => arbitrary(),
    }
}

/// The settings and keys of a node are the same in `a` and `b`.
pub open spec fn same_node(a: StreamletInstance, b: StreamletInstance) -> bool {
    &&& a.keypair == b.keypair
    &&& a.expected_peer_count == b.expected_peer_count
    &&& a.id == b.id
    &&& a.name == b.name
    &&& a.mode == b.mode
    &&& a.epoch_length == b.epoch_length
    &&& a.compromise_type == b.compromise_type
}

/// `m` answers an application request: a message of kind `kind` with the
/// request's tag, the node's address and the node's id and name.
pub open spec fn answers_request(m: Message, kind: MessageKind, tag: u32, id: u32, name: Seq<char>, addr: SocketAddr) -> bool {
    &&& m.kind == kind
    &&& m.tag == tag
    &&& m.sender_id == id
    &&& m.sender_name@ == name
    &&& m.payload == MessagePayload::SocketAddr(addr)
    &&& m.signatures@.len() == 0
}

/// The manager after a notarized block is added: chain `i`, the first that
/// ends in the block's parent, grows by the block; with no such chain nothing changes.
pub open spec fn manager_after_notarized(m0: BlockchainManager, m1: BlockchainManager, block: Block, sigs: Seq<Signature>) -> bool {
    if exists|i: int| first_head_index(m0.notarized(), block.parent_hash@, i) {
        exists|i: int| first_head_index(m0.notarized(), block.parent_hash@, i) && add_to_chain_post(m0, m1, block, sigs, i)
    } else {
        m1 == m0
    }
}

impl StreamletInstance {
    /// The message carries valid signatures from at least two thirds of the nodes.
    pub open spec fn notarizes(&self, message: Message) -> bool {
        valid_signature_count(self.public_keys@, message.signatures@, payload_bytes(message.payload))
            >= notarization_threshold(self.expected_peer_count as nat + 1)
    }

    /// A message notarizes its block exactly when the valid signatures of
    /// known nodes on its payload number at least two thirds of all the
    /// nodes (this node and its expected peers).
    pub proof fn lemma_notarizes_two_thirds(&self, message: Message)
        ensures
            self.notarizes(message) <==> 3 * valid_signature_count(
                self.public_keys@,
                message.signatures@,
                payload_bytes(message.payload),
            ) >= 2 * (self.expected_peer_count + 1),
    {
        lemma_notarization_threshold(self.expected_peer_count as nat + 1);
    }

    /// This node's signature of the message's payload.
    pub open spec fn own_signature(&self, message: Message) -> Seq<u8> {
        ed25519_signature(self.keypair.secret@, payload_bytes(message.payload))
    }

    /// The node signs the message carrying `block` as its vote this epoch:
    /// see `should_vote`.
    pub open spec fn votes_for(&self, message: Message, block: Block, vote: Option<Signature>, epoch: u64, app: AppInterface) -> bool {
        &&& self.signed_by_leader(epoch, message)
        &&& block.epoch == epoch
        &&& extends_a_head(self.manager(), block.parent_hash@)
        &&& app.data_is_valid_spec(message)
        &&& !sigs_view(message.signatures@).contains(self.own_signature(message))
        &&& (vote.is_none() || vote.unwrap()@ == self.own_signature(message))
    }

    /// Handling the message would fail: a vote or proposal arrives before the
    /// epoch's leader can be looked up, the notarized block would make the
    /// node finalize a prefix longer than its chain, or the vote the node
    /// would broadcast (the message with one more signature) would not fit in
    /// `MAX_MSG_SIZE` bytes.
    pub open spec fn message_fails(&self, message: Message, vote: Option<Signature>, epoch: u64, app: AppInterface) -> bool {
        match message.payload {
            MessagePayload::Block(block) => {
                let echo_too_big = self.votes_for(message, block, vote, epoch, app) && self.compromise_type
                    != CompromiseType::NoVote && message_bytes(message).len() + 64 > MAX_MSG_SIZE;
                if message.kind == MessageKind::Vote {
                    (vote.is_some() && !self.leader_known(epoch)) || (vote.is_some() && echo_too_big) || (
                    self.notarizes(message) && self.manager().append_overruns(block, message.signatures@))
                } else if message.kind == MessageKind::Propose {
                    !self.leader_known(epoch) || echo_too_big || (self.votes_for(message, block, vote, epoch, app)
                        && self.notarizes(message) && self.manager().append_overruns(block, message.signatures@))
                } else {
                    false
                }
            },
            _ => false,
        }
    }

    /// Whether handling the message would fail: see `message_fails`.
    pub fn message_would_fail(&self, message: &Message, vote_this_epoch: &Option<Signature>, epoch: u64, app_interface: &AppInterface) -> (r: bool)
        requires
            self.wf(),
        ensures
            r == self.message_fails(*message, *vote_this_epoch, epoch, *app_interface),
    {
        match &message.payload {
            MessagePayload::Block(block) => {
                if message.kind != MessageKind::Vote && message.kind != MessageKind::Propose {
                    return false;
                }
                if !self.leader_is_known(epoch) {
                    if message.kind == MessageKind::Propose || vote_this_epoch.is_some() {
                        return true;
                    }
                    return self.is_notarized(message) && self.blockchain_manager.append_would_overrun(
                        block,
                        &message.signatures,
                    );
                }
                let votes = self.would_vote(message, block, vote_this_epoch, epoch, app_interface);
                let echoes = votes && self.compromise_type != CompromiseType::NoVote && (
                message.kind == MessageKind::Propose || vote_this_epoch.is_some());
                if echoes && message.serialize().len() > MAX_MSG_SIZE - 64 {
                    return true;
                }
                if message.kind == MessageKind::Propose && !votes {
                    return false;
                }
                self.is_notarized(message) && self.blockchain_manager.append_would_overrun(block, &message.signatures)
            },
            _ => false,
        }
    }

    /// Whether the node would sign the message carrying `block` as its vote
    /// this epoch: see `votes_for`.
    fn would_vote(
        &self,
        message: &Message,
        block: &Block,
        vote_this_epoch: &Option<Signature>,
        epoch: u64,
        app_interface: &AppInterface,
    ) -> (r: bool)
        requires
            self.wf(),
            self.leader_known(epoch),
            message.payload == MessagePayload::Block(*block),
        ensures
            r == self.votes_for(*message, *block, *vote_this_epoch, epoch, *app_interface),
    {
        let eligible = self.check_from_leader(epoch, message) && block.epoch == epoch
            && self.blockchain_manager.find_ancestor_pub(block) && app_interface.data_is_valid(message);
        if !eligible {
            return false;
        }
        let bytes = message.serialize_payload();
        let sig = self.sign(bytes.as_slice());
        if contains_signature(&message.signatures, &sig) {
            return false;
        }
        match vote_this_epoch {
            None => true,
            Some(v) => signature_equal(v, &sig),
        }
    }
}

impl StreamletInstance {
    /// Handles a message received from the network, at `epoch`, given the
    /// node's vote so far this epoch.
    ///
    /// - Data sent by the application is queued for proposal.
    /// - A request of the application for the latest block or the chain is
    ///   answered with the node's address, on the application's topic.
    /// - A peer advertisement records the peer's key, advances discovery and
    ///   refreshes the names used for leader election.
    /// - A vote is echoed (signed and broadcast) when the node has voted this
    ///   epoch and should vote for it; a proposal is voted for when the node
    ///   should vote for it. Payloads voted for leave the pending queue.
    /// - A notarized block (from a vote, or from a proposal the node voted
    ///   for) is added to the first notarized chain that ends in its parent.
    pub fn on_network_message(
        &mut self,
        message: Message,
        epoch: u64,
        vote_this_epoch: Option<Signature>,
        peers: &mut Peers,
        net_stack: &mut NetworkStack,
        app_interface: &AppInterface,
        local_addr: SocketAddr,
    ) -> (out: NetworkOutcome)
        requires
            old(self).wf(),
            old(peers).wf(),
            !old(self).message_fails(message, vote_this_epoch, epoch, *app_interface),
        ensures
            final(self).wf(),
            final(peers).wf(),
            same_node(*final(self), *old(self)),
            final(net_stack).topic == old(net_stack).topic,
            final(net_stack).init_topic == old(net_stack).init_topic,
            final(net_stack).pending@.take(old(net_stack).pending@.len() as int) == old(net_stack).pending@,
            message.kind == MessageKind::AppSend ==> {
                &&& out is Nothing
                &&& final(self).manager() == old(self).manager()
                &&& final(self).public_keys == old(self).public_keys
                &&& *final(net_stack) == *old(net_stack)
                &&& *final(peers) == *old(peers)
                &&& final(self).pending() == match message.payload {
                    MessagePayload::AppData(d) => if app_interface.message_is_from_app_spec(message) {
                        old(self).pending().push(d@)
                    } else {
                        old(self).pending()
                    },
                    _ => old(self).pending(),
                }
            },
            message.kind == MessageKind::AppBlockRequest || message.kind == MessageKind::AppChainRequest ==> {
                &&& out is Nothing
                &&& final(self).manager() == old(self).manager()
                &&& final(self).public_keys == old(self).public_keys
                &&& final(self).pending() == old(self).pending()
                &&& *final(peers) == *old(peers)
                &&& final(net_stack).init_open == old(net_stack).init_open
                &&& final(net_stack).pending@.len() == old(net_stack).pending@.len() + 1
                &&& exists|m: Message|
                    is_publish(final(net_stack).pending@.last(), "app"@, m) && answers_request(
                        m,
                        if message.kind == MessageKind::AppBlockRequest {
                            MessageKind::AppBlockResponse
                        } else {
                            MessageKind::AppChainResponse
                        },
                        message.tag,
                        old(self).id,
                        old(self).name@,
                        local_addr,
                    )
            },
            message.kind == MessageKind::PeerInit ==> {
                &&& final(self).manager() == old(self).manager()
                &&& final(self).pending() == old(self).pending()
                &&& match message.payload {
                    MessagePayload::PeerAdvertisement(ad) => {
                        &&& key_of(final(self).known_keys(), ad.node_name@) == Some(ad.public_key)
                        &&& forall|n: Seq<char>|
                            n != ad.node_name@ ==> key_of(final(self).known_keys(), n) == key_of(
                                old(self).known_keys(),
                                n,
                            )
                        &&& string_views(final(self).sorted_peer_names@).to_multiset() == nonempty_names(
                            peer_names(final(self).public_keys@),
                        ).to_multiset()
                        &&& names_sorted(final(self).sorted_peer_names@)
                        &&& (out is StartTimer) == (!old(peers).done() && !old(peers).has_peer(ad.node_name@)
                            && final(peers).done() && old(net_stack).init_open)
                        &&& exists|s: InitStatus|
                            #[trigger] advertisement_received(
                                *old(peers),
                                *final(peers),
                                *old(net_stack),
                                *final(net_stack),
                                ad,
                                s,
                            ) && ((out is StartTimer) <==> s == InitStatus::DoneStartTimer)
                        &&& !(out is Voted)
                    },
                    _ => {
                        &&& out is Nothing
                        &&& final(self).public_keys == old(self).public_keys
                        &&& *final(net_stack) == *old(net_stack)
                        &&& *final(peers) == *old(peers)
                    },
                }
            },
            message.kind == MessageKind::Vote ==> {
                &&& *final(peers) == *old(peers)
                &&& final(self).public_keys == old(self).public_keys
                &&& final(net_stack).init_open == old(net_stack).init_open
                &&& match message.payload {
                    MessagePayload::Block(block) => {
                        let voted = vote_this_epoch.is_some() && old(self).votes_for(
                            message,
                            block,
                            vote_this_epoch,
                            epoch,
                            *app_interface,
                        ) && old(self).compromise_type != CompromiseType::NoVote;
                        &&& voted ==> out is Voted && out->Voted_0@ == old(self).own_signature(message)
                        &&& voted ==> final(self).pending() == without_payload(old(self).pending(), block.data@)
                        &&& voted ==> final(net_stack).pending@.len() == old(net_stack).pending@.len() + 1
                        &&& voted ==> exists|m: Message|
                            is_publish(final(net_stack).pending@.last(), old(net_stack).topic@, m) && m.kind
                                == MessageKind::Vote && m.payload == message.payload && m.signatures@
                                == message.signatures@.push(out->Voted_0)
                        &&& !voted ==> out is Nothing
                        &&& !voted ==> final(self).pending() == old(self).pending()
                        &&& !voted ==> final(net_stack).pending@ == old(net_stack).pending@
                        &&& old(self).notarizes(message) ==> manager_after_notarized(
                            old(self).manager(),
                            final(self).manager(),
                            block,
                            message.signatures@,
                        )
                        &&& !old(self).notarizes(message) ==> final(self).manager() == old(self).manager()
                    },
                    _ => {
                        &&& out is Nothing
                        &&& final(self).manager() == old(self).manager()
                        &&& final(self).pending() == old(self).pending()
                        &&& *final(net_stack) == *old(net_stack)
                    },
                }
            },
            message.kind == MessageKind::Propose ==> {
                &&& *final(peers) == *old(peers)
                &&& final(self).public_keys == old(self).public_keys
                &&& final(net_stack).init_open == old(net_stack).init_open
                &&& match message.payload {
                    MessagePayload::Block(block) => {
                        let votes = old(self).votes_for(message, block, vote_this_epoch, epoch, *app_interface);
                        let sends = votes && old(self).compromise_type != CompromiseType::NoVote;
                        &&& sends ==> out is Voted && out->Voted_0@ == old(self).own_signature(message)
                        &&& sends ==> final(net_stack).pending@.len() == old(net_stack).pending@.len() + 1
                        &&& sends ==> exists|m: Message|
                            is_publish(final(net_stack).pending@.last(), old(net_stack).topic@, m) && m.kind
                                == MessageKind::Vote && m.payload == message.payload && m.signatures@
                                == message.signatures@.push(out->Voted_0)
                        &&& !sends ==> out is Nothing
                        &&& !sends ==> final(net_stack).pending@ == old(net_stack).pending@
                        &&& votes ==> final(self).pending() == without_payload(old(self).pending(), block.data@)
                        &&& !votes ==> final(self).pending() == old(self).pending()
                        &&& votes && old(self).notarizes(message) ==> manager_after_notarized(
                            old(self).manager(),
                            final(self).manager(),
                            block,
                            message.signatures@,
                        )
                        &&& !(votes && old(self).notarizes(message)) ==> final(self).manager() == old(
                            self,
                        ).manager()
                    },
                    _ => {
                        &&& out is Nothing
                        &&& final(self).manager() == old(self).manager()
                        &&& final(self).pending() == old(self).pending()
                        &&& *final(net_stack) == *old(net_stack)
                    },
                }
            },
            message.kind == MessageKind::Test || message.kind == MessageKind::AppRequest || message.kind
                == MessageKind::AppBlockResponse || message.kind == MessageKind::AppChainResponse ==> {
                &&& out is Nothing
                &&& *final(self) == *old(self)
                &&& *final(net_stack) == *old(net_stack)
                &&& *final(peers) == *old(peers)
            },
    {
        match message.kind {
            MessageKind::AppSend => {
                match &message.payload {
                    MessagePayload::AppData(data) => {
                        if app_interface.message_is_from_app(&message) && app_interface.data_is_valid(&message) {
                            let ghost before = self.pending_transactions@;
                            self.pending_transactions.push_back(crate::blockchain::block::copy_bytes(data));
                            assert(self.pending() =~= old(self).pending().push(data@));
                        }
                    },
                    _ => {},
                }
                NetworkOutcome::Nothing
            },
            MessageKind::AppBlockRequest => {
                let new_message = Message::new_with_defined_tag(
                    MessagePayload::SocketAddr(local_addr),
                    MessageKind::AppBlockResponse,
                    message.tag,
                    self.id,
                    self.name.clone(),
                );
                let ghost m = new_message;
                app_interface.send_to_app(net_stack, new_message);
                assert(final(net_stack).pending@.take(old(net_stack).pending@.len() as int) =~= old(
                    net_stack,
                ).pending@) by {
                    assert(net_stack.pending@.take(old(net_stack).pending@.len() as int) =~= old(
                        net_stack,
                    ).pending@);
                }
                assert(is_publish(net_stack.pending@.last(), "app"@, m));
                NetworkOutcome::Nothing
            },
            MessageKind::AppChainRequest => {
                let new_message = Message::new_with_defined_tag(
                    MessagePayload::SocketAddr(local_addr),
                    MessageKind::AppChainResponse,
                    message.tag,
                    self.id,
                    self.name.clone(),
                );
                let ghost m = new_message;
                net_stack.broadcast_to_topic("app", new_message);
                assert(net_stack.pending@.take(old(net_stack).pending@.len() as int) =~= old(
                    net_stack,
                ).pending@);
                assert(is_publish(net_stack.pending@.last(), "app"@, m));
                NetworkOutcome::Nothing
            },
            MessageKind::AppBlockResponse => NetworkOutcome::Nothing,
            MessageKind::AppChainResponse => NetworkOutcome::Nothing,
            MessageKind::PeerInit => {
                match &message.payload {
                    MessagePayload::PeerAdvertisement(ad) => {
                        self.add_public_key(ad.node_name.clone(), &ad.public_key);
                        let status = peers.recv_advertisement(ad, net_stack);
                        self.refresh_leader_names();
                        assert(advertisement_received(*old(peers), *peers, *old(net_stack), *net_stack, *ad, status));
                        if status == InitStatus::DoneStartTimer {
                            NetworkOutcome::StartTimer
                        } else {
                            NetworkOutcome::Nothing
                        }
                    },
                    _ => NetworkOutcome::Nothing,
                }
            },
            MessageKind::Vote => {
                let block = match &message.payload {
                    MessagePayload::Block(b) => b.clone(),
                    _ => {
                        return NetworkOutcome::Nothing;
                    },
                };
                let ghost payload_block = block_of(message.payload);
                let notarized = self.is_notarized(&message);
                let orig_sigs = crate::blockchain::block::copy_signatures(&message.signatures);
                let ghost msg = message;
                let mut outcome = NetworkOutcome::Nothing;
                let mut new_message = message;
                if vote_this_epoch.is_some() {
                    match self.should_vote(&mut new_message, vote_this_epoch, epoch, &block, app_interface) {
                        Some(sig) => {
                            if self.compromise_type != CompromiseType::NoVote {
                                let ghost m = new_message;
                                assert(m.signatures@ =~= msg.signatures@.push(sig));
                                proof {
                                    lemma_message_bytes_len(msg);
                                    lemma_message_bytes_len(m);
                                }
                                net_stack.broadcast_message(new_message);
                                assert(is_publish(net_stack.pending@.last(), old(net_stack).topic@, m));
                                outcome = NetworkOutcome::Voted(sig);
                                self.remove_pending(&block.data);
                            }
                        },
                        None => {},
                    }
                }
                self.add_if_notarized(notarized, block, Ghost(payload_block), orig_sigs, Ghost(msg));
                outcome
            },
            MessageKind::Propose => {
                let block = match &message.payload {
                    MessagePayload::Block(b) => b.clone(),
                    _ => {
                        return NetworkOutcome::Nothing;
                    },
                };
                let ghost payload_block = block_of(message.payload);
                let notarized = self.is_notarized(&message);
                let orig_sigs = crate::blockchain::block::copy_signatures(&message.signatures);
                let ghost msg = message;
                let mut new_message = message;
                match self.should_vote(&mut new_message, vote_this_epoch, epoch, &block, app_interface) {
                    Some(sig) => {
                        let mut outcome = NetworkOutcome::Nothing;
                        if self.compromise_type != CompromiseType::NoVote {
                            new_message.kind = MessageKind::Vote;
                            let ghost m = new_message;
                            assert(m.signatures@ =~= msg.signatures@.push(sig));
                            proof {
                                lemma_message_bytes_len(msg);
                                lemma_message_bytes_len(m);
                            }
                            net_stack.broadcast_message(new_message);
                            assert(is_publish(net_stack.pending@.last(), old(net_stack).topic@, m));
                            outcome = NetworkOutcome::Voted(sig);
                        }
                        let data = crate::blockchain::block::copy_bytes(&block.data);
                        self.add_if_notarized(notarized, block, Ghost(payload_block), orig_sigs, Ghost(msg));
                        self.remove_pending(&data);
                        outcome
                    },
                    None => NetworkOutcome::Nothing,
                }
            },
            _ => NetworkOutcome::Nothing,
        }
    }
}

impl StreamletInstance {
    /// Adds a notarized block to the first notarized chain that ends in its
    /// parent (nothing happens when `notarized` is false or no chain ends there).
    fn add_if_notarized(
        &mut self,
        notarized: bool,
        block: Block,
        Ghost(payload_block): Ghost<Block>,
        sigs: Vec<Signature>,
        Ghost(msg): Ghost<Message>,
    )
        requires
            old(self).wf(),
            block@ == payload_block@,
            block.parent_hash == payload_block.parent_hash,
            sigs@ == msg.signatures@,
            notarized == old(self).notarizes(msg),
            notarized ==> !old(self).manager().append_overruns(payload_block, msg.signatures@),
        ensures
            final(self).wf(),
            same_node(*final(self), *old(self)),
            final(self).public_keys == old(self).public_keys,
            final(self).pending_transactions == old(self).pending_transactions,
            final(self).sorted_peer_names == old(self).sorted_peer_names,
            notarized ==> manager_after_notarized(old(self).manager(), final(self).manager(), payload_block, msg.signatures@),
            !notarized ==> final(self).manager() == old(self).manager(),
    {
        if notarized {
            let idx_opt = self.blockchain_manager.index_of_ancestor_chain(block.clone());
            match idx_opt {
                Some(idx) => {
                    proof {
                        assert(first_head_index(old(self).manager().notarized(), payload_block.parent_hash@, idx as int));
                        assert(crate::blockchain::manager::signed_model(block, sigs@) == crate::blockchain::manager::signed_model(payload_block, msg.signatures@));
                    }
                    self.blockchain_manager.add_to_chain(block, sigs, idx);
                    proof {
                        assert(add_to_chain_post(old(self).manager(), self.manager(), payload_block, msg.signatures@, idx as int));
                    }
                },
                None => {
                    proof {
                        assert forall|i: int| !first_head_index(old(self).manager().notarized(), payload_block.parent_hash@, i) by {
                            if 0 <= i < old(self).manager().notarized().len() {
                                assert(old(self).manager().notarized()[i].last().block.hash != payload_block.parent_hash@);
                            }
                        }
                    }
                },
            }
        }
    }
}

/// Signing is idempotent: once a node's signature of a payload is on a
/// message, signing the message again finds it there (so `sign_message`
/// adds nothing and returns `None`).
pub proof fn lemma_sign_message_idempotent(node: StreamletInstance, m0: Message, m1: Message, s: Signature)
    requires
        m1.payload == m0.payload,
        m1.signatures@ == m0.signatures@.push(s),
        s@ == node.own_signature(m0),
    ensures
        sigs_view(m1.signatures@).contains(node.own_signature(m1)),
{
    assert(sigs_view(m1.signatures@)[m0.signatures@.len() as int] == s@);
}

/// Nodes that expect the same number of peers and hold the same names for
/// leader election, each list in ascending order, elect the same leader in
/// every epoch.
pub proof fn lemma_same_names_same_leader(a: StreamletInstance, b: StreamletInstance, epoch: u64)
    requires
        a.expected_peer_count == b.expected_peer_count,
        a.leader_known(epoch),
        b.leader_known(epoch),
        names_sorted(a.sorted_peer_names@),
        names_sorted(b.sorted_peer_names@),
        string_views(a.sorted_peer_names@).to_multiset() == string_views(b.sorted_peer_names@).to_multiset(),
    ensures
        a.epoch_leader(epoch)@ == b.epoch_leader(epoch)@,
{
    let leq = |x: Seq<char>, y: Seq<char>| name_le(x, y);
    let sa = string_views(a.sorted_peer_names@);
    let sb = string_views(b.sorted_peer_names@);
    lemma_name_le_total_ordering();
    assert forall|i: int, j: int| 0 <= i < j < sa.len() implies #[trigger] leq(sa[i], sa[j]) by {
        assert(sa[i] == a.sorted_peer_names@[i]@);
        assert(sa[j] == a.sorted_peer_names@[j]@);
    }
    assert forall|i: int, j: int| 0 <= i < j < sb.len() implies #[trigger] leq(sb[i], sb[j]) by {
        assert(sb[i] == b.sorted_peer_names@[i]@);
        assert(sb[j] == b.sorted_peer_names@[j]@);
    }
    vstd::seq_lib::lemma_sorted_unique(sa, sb, leq);
    let k = leader_index(epoch, a.expected_peer_count);
    assert(sa[k] == a.sorted_peer_names@[k]@);
    assert(sb[k] == b.sorted_peer_names@[k]@);
}

} // verus!
