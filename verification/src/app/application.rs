//! A network-directory application in the style of Tor: it makes random
//! router directories, sends them to the Streamlet nodes to be logged, and
//! asks the nodes for the latest finalized block.
use std::collections::HashSet;
use rand::Rng;
use rand::distributions::Alphanumeric;
use vstd::prelude::*;
use vstd::string::StringExecFns;
use crate::app::app_interface::APP_SENDER_ID;
use crate::crypto::{Keypair, ed25519_signature};
use crate::decoding::{framed_at, lemma_framed_concat, read_str, read_u64};
use crate::encoding::{le_u64, push_str, push_u64};
use crate::messages::{Message, MessageKind, MessagePayload, str_bytes};
use crate::text::{decimal, append_decimal, has_prefix_bytes};

verus! {

/// Length of a router's onion key.
pub const KEY_SIZE: usize = 128;

/// Length of the hash of a router's full descriptor.
pub const REMAINING_DATA_HASH_SIZE: usize = 64;

/// Fewest routers in a directory.
pub const MIN_SIZE: usize = 2;

/// One more than the most routers in a directory.
pub const MAX_SIZE: usize = 20;

/// What a directory lists about one router: its IP address, its onion key
/// and the hash of its full descriptor.
#[derive(Debug)]
pub struct OnionRouterBasicData {
    pub ip: String,
    pub onion_key: String,
    pub full_hash: String,
}

/// A network directory: a list of routers.
#[derive(Debug)]
pub struct OnionRouterNetDirectory {
    pub or_list: Vec<OnionRouterBasicData>,
}

/// A character is an ASCII letter or digit.
pub open spec fn is_alphanumeric(c: char) -> bool {
    ('0' <= c <= '9') || ('a' <= c <= 'z') || ('A' <= c <= 'Z')
}

/// Calls `sample_iter(&rand::distributions::Alphanumeric)` on the thread's
/// generator and keeps `n` characters. Trusted: the string has `n`
/// characters, each an ASCII letter or digit.
#[verifier::external_body]
fn random_alphanumeric(n: usize) -> (s: String)
    ensures
        s@.len() == n,
        forall|i: int| 0 <= i < n ==> is_alphanumeric(#[trigger] s@[i]),
{
    rand::thread_rng().sample_iter(&Alphanumeric).take(n).map(char::from).collect()
}

/// Calls `rand::Rng::gen_range(low, high)` on the thread's generator.
/// Trusted: the value lies in `[low, high)`.
#[verifier::external_body]
fn random_count(low: usize, high: usize) -> (r: usize)
    requires
        low < high,
    ensures
        low <= r < high,
{
    rand::thread_rng().gen_range(low, high)
}

/// The dotted-decimal form of an IPv4 address.
pub open spec fn dotted(a: u8, b: u8, c: u8, d: u8) -> Seq<char> {
    decimal(a as nat) + seq!['.'] + decimal(b as nat) + seq!['.'] + decimal(c as nat) + seq!['.'] + decimal(
        d as nat,
    )
}

/// The bytes of a router's data: its three strings, each preceded by its length.
pub open spec fn router_bytes(r: OnionRouterBasicData) -> Seq<u8> {
    str_bytes(r.ip@) + str_bytes(r.onion_key@) + str_bytes(r.full_hash@)
}

/// The routers' bytes one after the other.
pub open spec fn routers_bytes(s: Seq<OnionRouterBasicData>) -> Seq<u8>
    decreases s.len(),
{
    if s.len() == 0 {
        Seq::empty()
    } else {
        routers_bytes(s.drop_last()) + router_bytes(s.last())
    }
}

/// The data that an application payload carries.
pub open spec fn payload_data(p: MessagePayload) -> Seq<u8> {
    match p {
        MessagePayload::AppData(d) => d@,
        _ => Seq::empty(),
    }
}

/// The bytes of a directory: the number of routers, then each router.
pub open spec fn directory_bytes(d: OnionRouterNetDirectory) -> Seq<u8> {
    le_u64(d.or_list@.len() as u64) + routers_bytes(d.or_list@)
}

impl View for OnionRouterBasicData {
    type V = (Seq<char>, Seq<char>, Seq<char>);

    open spec fn view(&self) -> (Seq<char>, Seq<char>, Seq<char>) {
        (self.ip@, self.onion_key@, self.full_hash@)
    }
}

impl View for OnionRouterNetDirectory {
    type V = Seq<(Seq<char>, Seq<char>, Seq<char>)>;

    open spec fn view(&self) -> Seq<(Seq<char>, Seq<char>, Seq<char>)> {
        self.or_list@.map_values(|r: OnionRouterBasicData| r@)
    }
}

/// The routers' bytes of `a` then `b` are those of `a + b`.
proof fn lemma_routers_bytes_concat(a: Seq<OnionRouterBasicData>, b: Seq<OnionRouterBasicData>)
    ensures
        routers_bytes(a + b) == routers_bytes(a) + routers_bytes(b),
    decreases b.len(),
{
    if b.len() == 0 {
        assert(a + b =~= a);
        assert(routers_bytes(a) + routers_bytes(b) =~= routers_bytes(a));
    } else {
        assert((a + b).drop_last() =~= a + b.drop_last());
        assert((a + b).last() == b.last());
        lemma_routers_bytes_concat(a, b.drop_last());
        assert(routers_bytes(a + b) =~= routers_bytes(a) + routers_bytes(b));
    }
}

/// The routers' bytes around router `i`.
proof fn lemma_routers_bytes_split(s: Seq<OnionRouterBasicData>, i: int)
    requires
        0 <= i < s.len(),
    ensures
        routers_bytes(s) == routers_bytes(s.take(i)) + router_bytes(s[i]) + routers_bytes(s.skip(i + 1)),
{
    assert(s =~= s.take(i + 1) + s.skip(i + 1));
    lemma_routers_bytes_concat(s.take(i + 1), s.skip(i + 1));
    assert(s.take(i + 1).drop_last() =~= s.take(i));
}

/// Routers with the same strings have the same bytes.
proof fn lemma_routers_bytes_views(a: Seq<OnionRouterBasicData>, b: Seq<OnionRouterBasicData>)
    requires
        a.map_values(|r: OnionRouterBasicData| r@) == b.map_values(|r: OnionRouterBasicData| r@),
    ensures
        routers_bytes(a) == routers_bytes(b),
    decreases a.len(),
{
    let va = a.map_values(|r: OnionRouterBasicData| r@);
    let vb = b.map_values(|r: OnionRouterBasicData| r@);
    assert(va.len() == a.len() && vb.len() == b.len());
    if a.len() > 0 {
        assert(a.drop_last().map_values(|r: OnionRouterBasicData| r@) =~= va.drop_last());
        assert(b.drop_last().map_values(|r: OnionRouterBasicData| r@) =~= vb.drop_last());
        assert(a.last()@ == va[a.len() - 1]);
        assert(b.last()@ == vb[b.len() - 1]);
        lemma_routers_bytes_views(a.drop_last(), b.drop_last());
    }
}

/// Every router takes at least the 24 bytes of its three lengths.
proof fn lemma_routers_bytes_len(s: Seq<OnionRouterBasicData>)
    ensures
        routers_bytes(s).len() >= 24 * s.len(),
    decreases s.len(),
{
    if s.len() > 0 {
        lemma_routers_bytes_len(s.drop_last());
    }
}

/// Reads the router at `pos` (see `router_bytes`); gives it and the position after it.
fn read_router(bytes: &[u8], pos: usize) -> (r: Option<(OnionRouterBasicData, usize)>)
    ensures
        r matches Some((x, end)) ==> end == pos + router_bytes(x).len() && framed_at(
            bytes@,
            pos as int,
            router_bytes(x),
        ),
        forall|y: OnionRouterBasicData| #[trigger] framed_at(bytes@, pos as int, router_bytes(y)) ==> (r matches Some(
            (x, end),
        ) && x@ == y@),
{
    proof {
        assert forall|y: OnionRouterBasicData| #[trigger] framed_at(bytes@, pos as int, router_bytes(y)) implies {
            &&& framed_at(bytes@, pos as int, str_bytes(y.ip@))
            &&& framed_at(bytes@, pos + str_bytes(y.ip@).len(), str_bytes(y.onion_key@))
            &&& framed_at(
                bytes@,
                pos + str_bytes(y.ip@).len() + str_bytes(y.onion_key@).len(),
                str_bytes(y.full_hash@),
            )
        } by {
            lemma_framed_concat(bytes@, pos as int, str_bytes(y.ip@) + str_bytes(y.onion_key@), str_bytes(y.full_hash@));
            lemma_framed_concat(bytes@, pos as int, str_bytes(y.ip@), str_bytes(y.onion_key@));
        }
    }
    let (ip, e1) = match read_str(bytes, pos) {
        Some(x) => x,
        None => {
            return None;
        },
    };
    let (onion_key, e2) = match read_str(bytes, e1) {
        Some(x) => x,
        None => {
            return None;
        },
    };
    let (full_hash, e3) = match read_str(bytes, e2) {
        Some(x) => x,
        None => {
            return None;
        },
    };
    let x = OnionRouterBasicData { ip, onion_key, full_hash };
    proof {
        lemma_framed_concat(bytes@, pos as int, str_bytes(x.ip@), str_bytes(x.onion_key@));
        lemma_framed_concat(bytes@, pos as int, str_bytes(x.ip@) + str_bytes(x.onion_key@), str_bytes(x.full_hash@));
    }
    Some((x, e3))
}

/// The shape of a router made at random: an IPv4 address in dotted decimal
/// with each part below 255, a 128-character onion key and a 64-character
/// descriptor hash, both of ASCII letters and digits.
pub open spec fn router_shaped(r: OnionRouterBasicData) -> bool {
    &&& exists|a: u8, b: u8, c: u8, d: u8| a < 255 && b < 255 && c < 255 && d < 255 && r.ip@ == dotted(a, b, c, d)
    &&& r.onion_key@.len() == KEY_SIZE
    &&& r.full_hash@.len() == REMAINING_DATA_HASH_SIZE
    &&& forall|i: int| 0 <= i < KEY_SIZE ==> is_alphanumeric(#[trigger] r.onion_key@[i])
    &&& forall|i: int| 0 <= i < REMAINING_DATA_HASH_SIZE ==> is_alphanumeric(#[trigger] r.full_hash@[i])
}

/// A directory made at random: between 2 and 19 routers, each of the shape
/// of a random router.
pub open spec fn directory_shaped(d: OnionRouterNetDirectory) -> bool {
    &&& MIN_SIZE <= d.or_list@.len() < MAX_SIZE
    &&& forall|i: int| 0 <= i < d.or_list@.len() ==> router_shaped(#[trigger] d.or_list@[i])
}

impl OnionRouterBasicData {
    /// A router with a random IP address, a random 128-character onion key
    /// and a random 64-character descriptor hash (letters and digits).
    pub fn new() -> (r: OnionRouterBasicData)
        ensures
            router_shaped(r),
    {
        let a = random_count(0, 255) as u8;
        let b = random_count(0, 255) as u8;
        let c = random_count(0, 255) as u8;
        let d = random_count(0, 255) as u8;
        let mut ip = String::new();
        append_decimal(&mut ip, a as u64);
        ip.append(".");
        append_decimal(&mut ip, b as u64);
        ip.append(".");
        append_decimal(&mut ip, c as u64);
        ip.append(".");
        append_decimal(&mut ip, d as u64);
        proof {
            reveal_strlit(".");
            assert(ip@ =~= dotted(a, b, c, d));
        }
        OnionRouterBasicData {
            ip,
            onion_key: random_alphanumeric(KEY_SIZE),
            full_hash: random_alphanumeric(REMAINING_DATA_HASH_SIZE),
        }
    }
}

impl OnionRouterNetDirectory {
    /// A directory of between 2 and 19 random routers.
    pub fn new() -> (d: OnionRouterNetDirectory)
        ensures
            directory_shaped(d),
    {
        let num_entries = random_count(MIN_SIZE, MAX_SIZE);
        let mut s = OnionRouterNetDirectory { or_list: Vec::new() };
        let mut i: usize = 0;
        while i < num_entries
            invariant
                i <= num_entries,
                MIN_SIZE <= num_entries < MAX_SIZE,
                s.or_list@.len() == i,
                forall|k: int| 0 <= k < i ==> router_shaped(#[trigger] s.or_list@[k]),
            decreases num_entries - i,
        {
            s.or_list.push(OnionRouterBasicData::new());
            i = i + 1;
        }
        s
    }

    /// The directory's bytes: the number of routers as a little-endian u64,
    /// then each router's IP address, onion key and descriptor hash, each
    /// preceded by its length.
    pub fn to_bytes(&self) -> (bytes: Vec<u8>)
        ensures
            bytes@ == directory_bytes(*self),
    {
        let mut out: Vec<u8> = Vec::new();
        push_u64(&mut out, self.or_list.len() as u64);
        let ghost start = out@;
        let mut i: usize = 0;
        while i < self.or_list.len()
            invariant
                i <= self.or_list@.len(),
                out@ == start + routers_bytes(self.or_list@.take(i as int)),
            decreases self.or_list@.len() - i,
        {
            let r = &self.or_list[i];
            push_str(&mut out, r.ip.as_str());
            push_str(&mut out, r.onion_key.as_str());
            push_str(&mut out, r.full_hash.as_str());
            proof {
                assert(self.or_list@.take(i + 1).drop_last() =~= self.or_list@.take(i as int));
                assert(self.or_list@.take(i + 1).last() == self.or_list@[i as int]);
                assert(out@ =~= start + routers_bytes(self.or_list@.take(i + 1)));
            }
            i = i + 1;
        }
        assert(self.or_list@.take(i as int) =~= self.or_list@);
        assert(out@ =~= directory_bytes(*self));
        out
    }
}

/// In the bytes of a directory of routers `s`, after the routers `v` read so
/// far (the first `i` of `s`, by their strings), comes router `i`.
proof fn lemma_next_router_framed(
    bytes: Seq<u8>,
    s: Seq<OnionRouterBasicData>,
    v: Seq<OnionRouterBasicData>,
    i: int,
    cur: int,
)
    requires
        framed_at(bytes, 0, le_u64(s.len() as u64) + routers_bytes(s)),
        0 <= i < s.len(),
        8 <= cur <= bytes.len(),
        bytes.subrange(8, cur) == routers_bytes(v),
        v.map_values(|r: OnionRouterBasicData| r@) == s.take(i).map_values(|r: OnionRouterBasicData| r@),
    ensures
        framed_at(bytes, cur, router_bytes(s[i])),
{
    lemma_framed_concat(bytes, 0, le_u64(s.len() as u64), routers_bytes(s));
    lemma_routers_bytes_split(s, i);
    lemma_routers_bytes_views(v, s.take(i));
    lemma_framed_concat(bytes, 8, routers_bytes(s.take(i)) + router_bytes(s[i]), routers_bytes(s.skip(i + 1)));
    lemma_framed_concat(bytes, 8, routers_bytes(s.take(i)), router_bytes(s[i]));
}

impl OnionRouterNetDirectory {
    /// Reads the directory that `bytes` begin with (see `directory_bytes`),
    /// if they begin with one: the directory written by `to_bytes` reads back
    /// as itself.
    pub fn from_bytes(bytes: &[u8]) -> (r: Option<OnionRouterNetDirectory>)
        ensures
            r matches Some(d) ==> framed_at(bytes@, 0, directory_bytes(d)),
            forall|d: OnionRouterNetDirectory| #[trigger] framed_at(bytes@, 0, directory_bytes(d)) ==> (r matches Some(
                e,
            ) && e@ == d@),
    {
        let blen = bytes.len();
        let n: u64 = match read_u64(bytes, 0) {
            None => {
                proof {
                    assert forall|d: OnionRouterNetDirectory| #[trigger] framed_at(bytes@, 0, directory_bytes(d))
                        implies false by {
                        lemma_framed_concat(bytes@, 0, le_u64(d.or_list@.len() as u64), routers_bytes(d.or_list@));
                    }
                }
                return None;
            },
            Some(n) => n,
        };
        let ghost p0: int = 8;
        let mut cur: usize = 8;
        let mut v: Vec<OnionRouterBasicData> = Vec::new();
        let mut i: u64 = 0;
        proof {
            assert forall|d: OnionRouterNetDirectory| #[trigger] framed_at(bytes@, 0, directory_bytes(d)) implies d.or_list@.len()
                == n by {
                lemma_framed_concat(bytes@, 0, le_u64(d.or_list@.len() as u64), routers_bytes(d.or_list@));
                lemma_routers_bytes_len(d.or_list@);
            }
            assert(bytes@.subrange(p0, cur as int) =~= routers_bytes(v@));
        }
        while i < n
            invariant
                blen == bytes@.len(),
                p0 == 8,
                framed_at(bytes@, 0, le_u64(n)),
                i <= n,
                v@.len() == i,
                p0 <= cur <= blen,
                bytes@.subrange(p0, cur as int) == routers_bytes(v@),
                forall|d: OnionRouterNetDirectory| #[trigger] framed_at(bytes@, 0, directory_bytes(d)) ==> d.or_list@.len()
                    == n && v@.map_values(|r: OnionRouterBasicData| r@) == d.or_list@.take(i as int).map_values(
                    |r: OnionRouterBasicData| r@,
                ),
            decreases n - i,
        {
            let item = read_router(bytes, cur);
            proof {
                assert forall|d: OnionRouterNetDirectory| #[trigger] framed_at(bytes@, 0, directory_bytes(d)) implies (
                item matches Some((x, e)) && x@ == d.or_list@[i as int]@) by {
                    lemma_next_router_framed(bytes@, d.or_list@, v@, i as int, cur as int);
                }
            }
            match item {
                None => {
                    proof {
                        assert forall|d: OnionRouterNetDirectory| #[trigger] framed_at(bytes@, 0, directory_bytes(d))
                            implies false by {
                            assert(d.or_list@.len() == n);
                        }
                    }
                    return None;
                },
                Some((x, e)) => {
                    let ghost before = v@;
                    proof {
                        assert(bytes@.subrange(p0, e as int) =~= bytes@.subrange(p0, cur as int) + bytes@.subrange(
                            cur as int,
                            e as int,
                        ));
                    }
                    v.push(x);
                    proof {
                        assert(v@.drop_last() =~= before);
                        assert(bytes@.subrange(p0, e as int) =~= routers_bytes(v@));
                        assert forall|d: OnionRouterNetDirectory| #[trigger] framed_at(bytes@, 0, directory_bytes(d))
                            implies v@.map_values(|r: OnionRouterBasicData| r@) == d.or_list@.take(i + 1).map_values(
                            |r: OnionRouterBasicData| r@,
                        ) by {
                            assert(v@.map_values(|r: OnionRouterBasicData| r@) =~= before.map_values(
                                |r: OnionRouterBasicData| r@,
                            ).push(v@[i as int]@));
                            assert(d.or_list@.take(i + 1).map_values(|r: OnionRouterBasicData| r@) =~= d.or_list@.take(
                                i as int,
                            ).map_values(|r: OnionRouterBasicData| r@).push(d.or_list@[i as int]@));
                        }
                    }
                    cur = e;
                },
            }
            i = i + 1;
        }
        let d = OnionRouterNetDirectory { or_list: v };
        proof {
            assert(d.or_list@.len() == n);
            lemma_framed_concat(bytes@, 0, le_u64(n), routers_bytes(d.or_list@));
            assert(framed_at(bytes@, 0, directory_bytes(d)));
            assert forall|c: OnionRouterNetDirectory| #[trigger] framed_at(bytes@, 0, directory_bytes(c)) implies d@ == c@ by {
                assert(c.or_list@.take(n as int) =~= c.or_list@);
            }
        }
        Some(d)
    }
}

/// What a message received by the application amounts to.
#[derive(Debug)]
pub enum AppEvent {
    /// A node answered an outstanding request with the genesis block.
    GenesisBlock,
    /// A node answered an outstanding request with a block holding this directory data.
    DirectoryData(Vec<u8>),
    /// A node answered an outstanding request with something other than a block.
    NotABlock,
    /// Nothing the application waits for.
    Ignored,
}

/// The application: its signing key, the last nonce it used and the nonces
/// of the requests still unanswered.
#[derive(Debug)]
pub struct Application {
    pub keypair: Keypair,
    pub curr_nonce: u32,
    pub outstanding_requests: HashSet<u32>,
}

impl Application {
    /// An application with a fresh key pair, nonce 0 and no request outstanding.
    pub fn new() -> (a: Application)
        ensures
            a.keypair.wf(),
            a.curr_nonce == 0,
            a.outstanding_requests@ == Set::<u32>::empty(),
    {
        Application { keypair: Keypair::generate(), curr_nonce: 0, outstanding_requests: HashSet::new() }
    }

    /// A new random directory, signed by the application and sent under the
    /// next nonce as data for the nodes to log.
    pub fn make_data(&mut self) -> (msg: Message)
        requires
            old(self).keypair.wf(),
            old(self).curr_nonce < u32::MAX,
        ensures
            final(self).curr_nonce == old(self).curr_nonce + 1,
            final(self).keypair == old(self).keypair,
            final(self).outstanding_requests@ == old(self).outstanding_requests@,
            msg.kind == MessageKind::AppSend,
            msg.nonce == final(self).curr_nonce,
            msg.sender_id == APP_SENDER_ID,
            msg.sender_name@ == "app"@,
            msg.payload is AppData,
            exists|d: OnionRouterNetDirectory|
                #[trigger] directory_bytes(d) == payload_data(msg.payload) && directory_shaped(d),
            msg.signatures@.len() == 1,
            msg.signatures@[0]@ == ed25519_signature(old(self).keypair.secret@, payload_data(msg.payload)),
    {
        let dir = OnionRouterNetDirectory::new();
        let data = dir.to_bytes();
        let sig = self.keypair.sign(data.as_slice());
        self.curr_nonce = self.curr_nonce + 1;
        let mut msg = Message::new_with_defined_nonce(
            MessagePayload::AppData(data),
            MessageKind::AppSend,
            self.curr_nonce,
            APP_SENDER_ID,
            "app".to_owned(),
        );
        msg.sign_message(sig);
        assert(directory_bytes(dir) == payload_data(msg.payload));
        msg
    }

    /// A request of the given kind, under the next nonce.
    fn make_request(&mut self, kind: MessageKind) -> (msg: Message)
        requires
            old(self).curr_nonce < u32::MAX,
        ensures
            final(self).curr_nonce == old(self).curr_nonce + 1,
            final(self).keypair == old(self).keypair,
            final(self).outstanding_requests@ == old(self).outstanding_requests@,
            msg.kind == kind,
            msg.payload == MessagePayload::Empty,
            msg.nonce == final(self).curr_nonce,
            msg.sender_id == APP_SENDER_ID,
            msg.sender_name@ == "app"@,
            msg.signatures@.len() == 0,
    {
        self.curr_nonce = self.curr_nonce + 1;
        Message::new_with_defined_nonce(MessagePayload::Empty, kind, self.curr_nonce, APP_SENDER_ID, "app".to_owned())
    }

    /// A request, under the next nonce, for the latest finalized block.
    pub fn make_latest_block_request(&mut self) -> (msg: Message)
        requires
            old(self).curr_nonce < u32::MAX,
        ensures
            final(self).curr_nonce == old(self).curr_nonce + 1,
            final(self).keypair == old(self).keypair,
            final(self).outstanding_requests@ == old(self).outstanding_requests@,
            msg.kind == MessageKind::AppBlockRequest,
            msg.payload == MessagePayload::Empty,
            msg.nonce == final(self).curr_nonce,
            msg.sender_id == APP_SENDER_ID,
            msg.sender_name@ == "app"@,
            msg.signatures@.len() == 0,
    {
        self.make_request(MessageKind::AppBlockRequest)
    }

    /// Acts on a line typed by the user: "request block" asks for the latest
    /// finalized block and "request chain" for the whole finalized chain,
    /// each recording its nonce as outstanding; any other line makes a new
    /// directory to send.
    pub fn on_user_input(&mut self, line: &str) -> (msg: Message)
        requires
            old(self).keypair.wf(),
            old(self).curr_nonce < u32::MAX,
        ensures
            final(self).curr_nonce == old(self).curr_nonce + 1,
            final(self).keypair == old(self).keypair,
            msg.nonce == final(self).curr_nonce,
            msg.sender_id == APP_SENDER_ID,
            msg.sender_name@ == "app"@,
            has_prefix_bytes(line@, "request block"@) ==> msg.kind == MessageKind::AppBlockRequest
                && msg.payload == MessagePayload::Empty && msg.signatures@.len() == 0
                && final(self).outstanding_requests@ == old(self).outstanding_requests@.insert(msg.nonce),
            !has_prefix_bytes(line@, "request block"@) && has_prefix_bytes(line@, "request chain"@) ==> msg.kind
                == MessageKind::AppChainRequest && msg.payload == MessagePayload::Empty && msg.signatures@.len()
                == 0 && final(self).outstanding_requests@ == old(self).outstanding_requests@.insert(msg.nonce),
            !has_prefix_bytes(line@, "request block"@) && !has_prefix_bytes(line@, "request chain"@) ==> {
                &&& msg.kind == MessageKind::AppSend
                &&& msg.payload is AppData
                &&& exists|d: OnionRouterNetDirectory|
                    #[trigger] directory_bytes(d) == payload_data(msg.payload) && directory_shaped(d)
                &&& msg.signatures@.len() == 1
                &&& msg.signatures@[0]@ == ed25519_signature(old(self).keypair.secret@, payload_data(msg.payload))
                &&& final(self).outstanding_requests@ == old(self).outstanding_requests@
            },
    {
        broadcast use vstd::std_specs::hash::group_hash_axioms;
        if crate::text::starts_with(line, "request block") {
            let msg = self.make_latest_block_request();
            self.outstanding_requests.insert(msg.nonce);
            msg
        } else if crate::text::starts_with(line, "request chain") {
            let msg = self.make_request(MessageKind::AppChainRequest);
            self.outstanding_requests.insert(msg.nonce);
            msg
        } else {
            self.make_data()
        }
    }

    /// Handles a message from a node: an answer to an outstanding request
    /// (one carrying the request's nonce) settles the request and yields the
    /// block's content; anything else is ignored.
    pub fn on_network_message(&mut self, message: &Message) -> (event: AppEvent)
        ensures
            final(self).keypair == old(self).keypair,
            final(self).curr_nonce == old(self).curr_nonce,
            (message.kind == MessageKind::AppBlockResponse && old(self).outstanding_requests@.contains(message.nonce))
                ==> {
                &&& final(self).outstanding_requests@ == old(self).outstanding_requests@.remove(message.nonce)
                &&& match message.payload {
                    MessagePayload::Block(b) => if b.epoch == 0 {
                        event is GenesisBlock
                    } else {
                        event matches AppEvent::DirectoryData(d) && d@ == b.data@
                    },
                    _ => event is NotABlock,
                }
            },
            !(message.kind == MessageKind::AppBlockResponse && old(self).outstanding_requests@.contains(message.nonce))
                ==> event is Ignored && final(self).outstanding_requests@ == old(self).outstanding_requests@,
    {
        broadcast use vstd::std_specs::hash::group_hash_axioms;
        if message.kind == MessageKind::AppBlockResponse && self.outstanding_requests.contains(&message.nonce) {
            let event = match &message.payload {
                MessagePayload::Block(block) => {
                    if block.epoch == 0 {
                        AppEvent::GenesisBlock
                    } else {
                        AppEvent::DirectoryData(crate::blockchain::block::copy_bytes(&block.data))
                    }
                },
                _ => AppEvent::NotABlock,
            };
            self.outstanding_requests.remove(&message.nonce);
            assert(self.outstanding_requests@ =~= old(self).outstanding_requests@.remove(message.nonce));
            event
        } else {
            AppEvent::Ignored
        }
    }
}

} // verus!
