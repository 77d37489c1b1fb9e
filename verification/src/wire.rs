//! The wire form of a whole message, and reading a message back from it.
//! A message's bytes are its payload's bytes, then its kind, nonce, tag and
//! sender id as little-endian u32 values, its sender's name and its list of
//! signatures. Reading back any message's bytes gives that message.
use vstd::prelude::*;
use vstd::utf8::encode_utf8;
use crate::blockchain::block::{Block, BlockModel};
use crate::crypto::{PublicKey, Signature};
use crate::decoding::{
    framed_at, lemma_framed_concat, lemma_sigs_concat_len, lemma_framed_same, lemma_le_u16_injective, lemma_len_prefixed_framed_unique,
    lemma_signatures_framed_unique, lemma_str_framed_unique, lemma_u32_framed_unique, lemma_u64_framed_unique,
    read_array, read_bool, read_len_prefixed, read_signatures, read_str, read_u16, read_u32, read_u64,
};
use crate::encoding::{
    enc_bool, le_u16, le_u32, le_u64, len_prefixed, push_signatures, push_str, push_u32, sig_list_bytes,
};
use crate::messages::{
    Message, MessageKind, MessagePayload, SocketAddr, advertisement_bytes, block_bytes, payload_bytes,
    socket_addr_bytes, str_bytes, str_list_bytes, strs_bytes, timestamp_bytes,
};
use crate::peer_init::{PeerAdvertisement, Timestamp, string_views};

verus! {

/// What a peer advertisement holds, as mathematical values.
pub struct AdvertisementModel {
    pub public_key: Seq<u8>,
    pub node_id: u32,
    pub node_name: Seq<char>,
    pub timestamp: Timestamp,
    pub end_init: bool,
    pub known_peers: Seq<Seq<char>>,
}

/// What a payload holds, as mathematical values.
pub enum PayloadModel {
    Block(BlockModel),
    Text(Seq<char>),
    PeerAdvertisement(AdvertisementModel),
    AppData(Seq<u8>),
    SocketAddr(SocketAddr),
    Empty,
}

/// What a message holds, as mathematical values.
pub struct MessageModel {
    pub payload: PayloadModel,
    pub kind: MessageKind,
    pub nonce: u32,
    pub tag: u32,
    pub sender_id: u32,
    pub sender_name: Seq<char>,
    pub signatures: Seq<Signature>,
}

impl View for PeerAdvertisement {
    type V = AdvertisementModel;

    open spec fn view(&self) -> AdvertisementModel {
        AdvertisementModel {
            public_key: self.public_key.bytes@,
            node_id: self.node_id,
            node_name: self.node_name@,
            timestamp: self.timestamp,
            end_init: self.end_init,
            known_peers: string_views(self.known_peers@),
        }
    }
}

impl View for MessagePayload {
    type V = PayloadModel;

    open spec fn view(&self) -> PayloadModel {
        match self {
            MessagePayload::Block(b) => PayloadModel::Block(b@),
            MessagePayload::String(s) => PayloadModel::Text(s@),
            MessagePayload::PeerAdvertisement(a) => PayloadModel::PeerAdvertisement(a@),
            MessagePayload::AppData(d) => PayloadModel::AppData(d@),
            MessagePayload::SocketAddr(s) => PayloadModel::SocketAddr(*s),
            MessagePayload::Empty => PayloadModel::Empty,
        }
    }
}

impl View for Message {
    type V = MessageModel;

    open spec fn view(&self) -> MessageModel {
        MessageModel {
            payload: self.payload@,
            kind: self.kind,
            nonce: self.nonce,
            tag: self.tag,
            sender_id: self.sender_id,
            sender_name: self.sender_name@,
            signatures: self.signatures@,
        }
    }
}

/// The index of a message kind in the wire form.
pub open spec fn kind_index(k: MessageKind) -> u32 {
    match k {
        MessageKind::Vote => 0,
        MessageKind::Propose => 1,
        MessageKind::Test => 2,
        MessageKind::PeerInit => 3,
        MessageKind::AppRequest => 4,
        MessageKind::AppSend => 5,
        MessageKind::AppBlockRequest => 6,
        MessageKind::AppBlockResponse => 7,
        MessageKind::AppChainRequest => 8,
        MessageKind::AppChainResponse => 9,
    }
}

/// The bytes of a whole message.
pub open spec fn message_bytes(m: Message) -> Seq<u8> {
    payload_bytes(m.payload) + le_u32(kind_index(m.kind)) + le_u32(m.nonce) + le_u32(m.tag) + le_u32(
        m.sender_id,
    ) + str_bytes(m.sender_name@) + sig_list_bytes(m.signatures@)
}

/// A message's wire form takes its payload's bytes, 16 bytes of kind, nonce,
/// tag and sender id, its framed sender name, and 8 bytes plus 64 per signature.
pub proof fn lemma_message_bytes_len(m: Message)
    ensures
        message_bytes(m).len() == payload_bytes(m.payload).len() + 32 + encode_utf8(m.sender_name@).len() + 64
            * m.signatures@.len(),
{
    lemma_sigs_concat_len(m.signatures@);
}

/// A block's payload takes 100 bytes besides the block's data.
pub proof fn lemma_block_payload_len(b: Block)
    ensures
        payload_bytes(MessagePayload::Block(b)).len() == 100 + b.data@.len(),
{
}

/// The index of a message kind.
fn kind_to_index(k: MessageKind) -> (i: u32)
    ensures
        i == kind_index(k),
{
    match k {
        MessageKind::Vote => 0,
        MessageKind::Propose => 1,
        MessageKind::Test => 2,
        MessageKind::PeerInit => 3,
        MessageKind::AppRequest => 4,
        MessageKind::AppSend => 5,
        MessageKind::AppBlockRequest => 6,
        MessageKind::AppBlockResponse => 7,
        MessageKind::AppChainRequest => 8,
        MessageKind::AppChainResponse => 9,
    }
}

/// The message kind with this index, if there is one.
fn kind_from_index(i: u32) -> (k: Option<MessageKind>)
    ensures
        k matches Some(k) ==> kind_index(k) == i,
        forall|c: MessageKind| #[trigger] kind_index(c) == i ==> k == Some(c),
{
    if i == 0 {
        Some(MessageKind::Vote)
    } else if i == 1 {
        Some(MessageKind::Propose)
    } else if i == 2 {
        Some(MessageKind::Test)
    } else if i == 3 {
        Some(MessageKind::PeerInit)
    } else if i == 4 {
        Some(MessageKind::AppRequest)
    } else if i == 5 {
        Some(MessageKind::AppSend)
    } else if i == 6 {
        Some(MessageKind::AppBlockRequest)
    } else if i == 7 {
        Some(MessageKind::AppBlockResponse)
    } else if i == 8 {
        Some(MessageKind::AppChainRequest)
    } else if i == 9 {
        Some(MessageKind::AppChainResponse)
    } else {
        None
    }
}

/// The framed strings of `a` then `b` are those of `a + b`.
proof fn lemma_strs_bytes_concat(a: Seq<String>, b: Seq<String>)
    ensures
        strs_bytes(a + b) == strs_bytes(a) + strs_bytes(b),
    decreases b.len(),
{
    if b.len() == 0 {
        assert(a + b =~= a);
        assert(strs_bytes(a) + strs_bytes(b) =~= strs_bytes(a));
    } else {
        assert((a + b).drop_last() =~= a + b.drop_last());
        assert((a + b).last() == b.last());
        lemma_strs_bytes_concat(a, b.drop_last());
        assert(strs_bytes(a + b) =~= strs_bytes(a) + strs_bytes(b));
    }
}

/// Every framed string takes at least its 8-byte length.
proof fn lemma_strs_bytes_len(s: Seq<String>)
    ensures
        strs_bytes(s).len() >= 8 * s.len(),
    decreases s.len(),
{
    if s.len() > 0 {
        lemma_strs_bytes_len(s.drop_last());
    }
}

/// The framed strings of `s`, split around the `i`-th string.
proof fn lemma_strs_bytes_split(s: Seq<String>, i: int)
    requires
        0 <= i < s.len(),
    ensures
        strs_bytes(s) == strs_bytes(s.take(i)) + str_bytes(s[i]@) + strs_bytes(s.skip(i + 1)),
{
    assert(s =~= s.take(i + 1) + s.skip(i + 1));
    lemma_strs_bytes_concat(s.take(i + 1), s.skip(i + 1));
    assert(s.take(i + 1).drop_last() =~= s.take(i));
}

/// Lists of strings with the same characters have the same framing.
proof fn lemma_strs_bytes_views(a: Seq<String>, b: Seq<String>)
    requires
        string_views(a) == string_views(b),
    ensures
        strs_bytes(a) == strs_bytes(b),
    decreases a.len(),
{
    assert(string_views(a).len() == a.len());
    assert(string_views(b).len() == b.len());
    if a.len() > 0 {
        assert(string_views(a.drop_last()) =~= string_views(a).drop_last());
        assert(string_views(b.drop_last()) =~= string_views(b).drop_last());
        assert(a.last()@ == string_views(a)[a.len() - 1]);
        assert(b.last()@ == string_views(b)[b.len() - 1]);
        lemma_strs_bytes_views(a.drop_last(), b.drop_last());
    }
}

/// Reads the list of strings at `pos` (see `str_list_bytes`); gives the
/// strings and the position after them.
pub fn read_str_list(bytes: &[u8], pos: usize) -> (r: Option<(Vec<String>, usize)>)
    ensures
        r matches Some((v, end)) ==> end == pos + str_list_bytes(v@).len() && framed_at(
            bytes@,
            pos as int,
            str_list_bytes(v@),
        ),
        forall|s: Seq<String>| #[trigger] framed_at(bytes@, pos as int, str_list_bytes(s)) ==> (r matches Some(
            (v, end),
        ) && string_views(v@) == string_views(s)),
{
    let blen = bytes.len();
    let count = read_u64(bytes, pos);
    let n: u64 = match count {
        None => {
            assert forall|s: Seq<String>| #[trigger] framed_at(bytes@, pos as int, str_list_bytes(s))
                implies false by {
                lemma_framed_concat(bytes@, pos as int, le_u64(s.len() as u64), strs_bytes(s));
            }
            return None;
        },
        Some(n) => n,
    };
    let ghost p0 = pos + 8;
    let mut cur: usize = pos + 8;
    let mut v: Vec<String> = Vec::new();
    let mut i: u64 = 0;
    proof {
        assert forall|s: Seq<String>| #[trigger] framed_at(bytes@, pos as int, str_list_bytes(s)) implies s.len()
            == n by {
            lemma_framed_concat(bytes@, pos as int, le_u64(s.len() as u64), strs_bytes(s));
            lemma_strs_bytes_len(s);
            assert(s.len() <= blen);
        }
        assert(bytes@.subrange(p0, cur as int) =~= strs_bytes(v@));
    }
    while i < n
        invariant
            blen == bytes@.len(),
            p0 == pos + 8,
            framed_at(bytes@, pos as int, le_u64(n)),
            i <= n,
            v@.len() == i,
            p0 <= cur <= blen,
            bytes@.subrange(p0, cur as int) == strs_bytes(v@),
            forall|s: Seq<String>| #[trigger] framed_at(bytes@, pos as int, str_list_bytes(s)) ==> s.len() == n
                && string_views(v@) == string_views(s.take(i as int)),
        decreases n - i,
    {
        let item = read_str(bytes, cur);
        proof {
            assert forall|s: Seq<String>| #[trigger] framed_at(bytes@, pos as int, str_list_bytes(s)) implies (
            item matches Some((t, e)) && t@ == s[i as int]@) by {
                lemma_framed_concat(bytes@, pos as int, le_u64(s.len() as u64), strs_bytes(s));
                lemma_strs_bytes_split(s, i as int);
                lemma_strs_bytes_views(v@, s.take(i as int));
                lemma_framed_concat(
                    bytes@,
                    p0,
                    strs_bytes(s.take(i as int)) + str_bytes(s[i as int]@),
                    strs_bytes(s.skip(i + 1)),
                );
                lemma_framed_concat(bytes@, p0, strs_bytes(s.take(i as int)), str_bytes(s[i as int]@));
                assert(framed_at(bytes@, cur as int, str_bytes(s[i as int]@)));
            }
        }
        match item {
            None => {
                proof {
                    assert forall|s: Seq<String>| #[trigger] framed_at(bytes@, pos as int, str_list_bytes(s))
                        implies false by {
                        assert(s.len() == n);
                    }
                }
                return None;
            },
            Some((t, e)) => {
                let ghost before = v@;
                proof {
                    assert(bytes@.subrange(p0, e as int) =~= bytes@.subrange(p0, cur as int) + bytes@.subrange(
                        cur as int,
                        e as int,
                    ));
                }
                v.push(t);
                proof {
                    assert(v@.drop_last() =~= before);
                    assert(bytes@.subrange(p0, e as int) =~= strs_bytes(v@));
                    assert forall|s: Seq<String>| #[trigger] framed_at(bytes@, pos as int, str_list_bytes(s))
                        implies string_views(v@) == string_views(s.take(i + 1)) by {
                        assert(string_views(v@) =~= string_views(before).push(v@[i as int]@));
                        assert(string_views(s.take(i + 1)) =~= string_views(s.take(i as int)).push(
                            s[i as int]@,
                        ));
                    }
                }
                cur = e;
            },
        }
        i = i + 1;
    }
    proof {
        assert(v@.len() == n);
        lemma_framed_concat(bytes@, pos as int, le_u64(n), strs_bytes(v@));
        assert forall|s: Seq<String>| #[trigger] framed_at(bytes@, pos as int, str_list_bytes(s)) implies string_views(
            v@,
        ) == string_views(s) by {
            assert(s.take(n as int) =~= s);
        }
    }
    Some((v, cur))
}

/// The framing of a block at `pos` is its fields at their offsets.
proof fn lemma_block_framing_parts(bytes: Seq<u8>, pos: int, b: Block)
    ensures
        framed_at(bytes, pos, block_bytes(b)) <==> {
            let d = len_prefixed(b.data@);
            &&& framed_at(bytes, pos, le_u64(b.epoch))
            &&& framed_at(bytes, pos + 8, b.hash@)
            &&& framed_at(bytes, pos + 40, b.parent_hash@)
            &&& framed_at(bytes, pos + 72, d)
            &&& framed_at(bytes, pos + 72 + d.len(), le_u64(b.height))
            &&& framed_at(bytes, pos + 80 + d.len(), le_u64(b.nonce))
        },
{
    let d = len_prefixed(b.data@);
    let x1 = le_u64(b.epoch);
    let x2 = x1 + b.hash@;
    let x3 = x2 + b.parent_hash@;
    let x4 = x3 + d;
    let x5 = x4 + le_u64(b.height);
    lemma_framed_concat(bytes, pos, x5, le_u64(b.nonce));
    lemma_framed_concat(bytes, pos, x4, le_u64(b.height));
    lemma_framed_concat(bytes, pos, x3, d);
    lemma_framed_concat(bytes, pos, x2, b.parent_hash@);
    lemma_framed_concat(bytes, pos, x1, b.hash@);
}

/// Reads the block at `pos` (see `block_bytes`); gives the block and the
/// position after it.
pub fn read_block(bytes: &[u8], pos: usize) -> (r: Option<(Block, usize)>)
    ensures
        r matches Some((b, end)) ==> end == pos + block_bytes(b).len() && framed_at(
            bytes@,
            pos as int,
            block_bytes(b),
        ),
        forall|c: Block| #[trigger] framed_at(bytes@, pos as int, block_bytes(c)) ==> (r matches Some((b, end))
            && b@ == c@),
{
    let blen = bytes.len();
    if pos > blen || blen - pos < 72 {
        proof {
            assert forall|c: Block| #[trigger] framed_at(bytes@, pos as int, block_bytes(c)) implies false by {
                lemma_block_framing_parts(bytes@, pos as int, c);
            }
        }
        return None;
    }
    let epoch = read_u64(bytes, pos);
    let hash: Option<[u8; 32]> = read_array(bytes, pos + 8);
    let parent: Option<[u8; 32]> = read_array(bytes, pos + 40);
    let data = read_len_prefixed(bytes, pos + 72);
    proof {
        assert forall|c: Block| #[trigger] framed_at(bytes@, pos as int, block_bytes(c)) implies epoch == Some(
            c.epoch,
        ) && hash == Some(c.hash) && parent == Some(c.parent_hash) && (data matches Some((d, e)) && d@
            == c.data@) by {
            lemma_block_framing_parts(bytes@, pos as int, c);
        }
    }
    match (epoch, hash, parent, data) {
        (Some(epoch), Some(hash), Some(parent_hash), Some((data, e1))) => {
            let height = read_u64(bytes, e1);
            if e1 > blen - 8 {
                proof {
                    assert forall|c: Block| #[trigger] framed_at(bytes@, pos as int, block_bytes(c)) implies false by {
                        lemma_block_framing_parts(bytes@, pos as int, c);
                    }
                }
                return None;
            }
            let nonce = read_u64(bytes, e1 + 8);
            proof {
                assert forall|c: Block| #[trigger] framed_at(bytes@, pos as int, block_bytes(c)) implies height
                    == Some(c.height) && nonce == Some(c.nonce) by {
                    lemma_block_framing_parts(bytes@, pos as int, c);
                }
            }
            match (height, nonce) {
                (Some(height), Some(nonce)) => {
                    let b = Block { epoch, hash, parent_hash, data, height, nonce };
                    proof {
                        lemma_block_framing_parts(bytes@, pos as int, b);
                    }
                    Some((b, e1 + 16))
                },
                _ => None,
            }
        },
        _ => None,
    }
}

/// Reads the public key at `pos`: its 32 bytes preceded by their length.
pub fn read_public_key(bytes: &[u8], pos: usize) -> (r: Option<(PublicKey, usize)>)
    ensures
        r matches Some((k, end)) ==> end == pos + 40 && framed_at(bytes@, pos as int, len_prefixed(k.bytes@)),
        forall|c: PublicKey| #[trigger] framed_at(bytes@, pos as int, len_prefixed(c.bytes@)) ==> r == Some(
            (c, (pos + 40) as usize),
        ),
{
    match read_len_prefixed(bytes, pos) {
        None => None,
        Some((b, end)) => {
            if b.len() != 32 {
                return None;
            }
            let key: Option<[u8; 32]> = read_array(b.as_slice(), 0);
            proof {
                assert(b@.subrange(0, b@.len() as int) =~= b@);
            }
            match key {
                Some(k) => {
                    assert(k@ =~= b@);
                    Some((PublicKey { bytes: k }, end))
                },
                None => None,
            }
        },
    }
}

/// The framing of an advertisement at `pos` is its fields at their offsets.
proof fn lemma_advertisement_framing_parts(bytes: Seq<u8>, pos: int, a: PeerAdvertisement)
    ensures
        framed_at(bytes, pos, advertisement_bytes(a)) <==> {
            let n = str_bytes(a.node_name@);
            &&& framed_at(bytes, pos, len_prefixed(a.public_key.bytes@))
            &&& framed_at(bytes, pos + 40, le_u32(a.node_id))
            &&& framed_at(bytes, pos + 44, n)
            &&& framed_at(bytes, pos + 44 + n.len(), le_u64(a.timestamp.secs_since_epoch))
            &&& framed_at(bytes, pos + 52 + n.len(), le_u32(a.timestamp.nanos_since_epoch))
            &&& framed_at(bytes, pos + 56 + n.len(), enc_bool(a.end_init))
            &&& framed_at(bytes, pos + 57 + n.len(), str_list_bytes(a.known_peers@))
        },
{
    let n = str_bytes(a.node_name@);
    let x1 = len_prefixed(a.public_key.bytes@);
    let x2 = x1 + le_u32(a.node_id);
    let x3 = x2 + n;
    let t = timestamp_bytes(a.timestamp);
    let x4 = x3 + t;
    let x5 = x4 + enc_bool(a.end_init);
    lemma_framed_concat(bytes, pos, x5, str_list_bytes(a.known_peers@));
    lemma_framed_concat(bytes, pos, x4, enc_bool(a.end_init));
    lemma_framed_concat(bytes, pos, x3, t);
    lemma_framed_concat(bytes, pos + x3.len(), le_u64(a.timestamp.secs_since_epoch), le_u32(a.timestamp.nanos_since_epoch));
    lemma_framed_concat(bytes, pos, x2, n);
    lemma_framed_concat(bytes, pos, x1, le_u32(a.node_id));
}

/// Reads the peer advertisement at `pos` (see `advertisement_bytes`).
pub fn read_advertisement(bytes: &[u8], pos: usize) -> (r: Option<(PeerAdvertisement, usize)>)
    ensures
        r matches Some((a, end)) ==> end == pos + advertisement_bytes(a).len() && framed_at(
            bytes@,
            pos as int,
            advertisement_bytes(a),
        ),
        forall|c: PeerAdvertisement| #[trigger] framed_at(bytes@, pos as int, advertisement_bytes(c)) ==> (
        r matches Some((a, end)) && a@ == c@),
{
    let blen = bytes.len();
    let key = read_public_key(bytes, pos);
    match key {
        None => {
            proof {
                assert forall|c: PeerAdvertisement| #[trigger] framed_at(bytes@, pos as int, advertisement_bytes(c))
                    implies false by {
                    lemma_advertisement_framing_parts(bytes@, pos as int, c);
                }
            }
            None
        },
        Some((public_key, e0)) => {
            let node_id = read_u32(bytes, e0);
            if e0 > blen - 4 {
                proof {
                    assert forall|c: PeerAdvertisement| #[trigger] framed_at(bytes@, pos as int, advertisement_bytes(c))
                        implies false by {
                        lemma_advertisement_framing_parts(bytes@, pos as int, c);
                    }
                }
                return None;
            }
            let name = read_str(bytes, e0 + 4);
            proof {
                assert forall|c: PeerAdvertisement| #[trigger] framed_at(bytes@, pos as int, advertisement_bytes(c))
                    implies public_key == c.public_key && node_id == Some(c.node_id) && (name matches Some((s, e))
                    && s@ == c.node_name@) by {
                    lemma_advertisement_framing_parts(bytes@, pos as int, c);
                }
            }
            match (node_id, name) {
                (Some(node_id), Some((node_name, e1))) => {
                    if e1 > blen - 13 {
                        proof {
                            assert forall|c: PeerAdvertisement| #[trigger] framed_at(
                                bytes@,
                                pos as int,
                                advertisement_bytes(c),
                            ) implies false by {
                                lemma_advertisement_framing_parts(bytes@, pos as int, c);
                            }
                        }
                        return None;
                    }
                    let secs = read_u64(bytes, e1);
                    let nanos = read_u32(bytes, e1 + 8);
                    let end_init = read_bool(bytes, e1 + 12);
                    let peers = read_str_list(bytes, e1 + 13);
                    proof {
                        assert forall|c: PeerAdvertisement| #[trigger] framed_at(
                            bytes@,
                            pos as int,
                            advertisement_bytes(c),
                        ) implies secs == Some(c.timestamp.secs_since_epoch) && nanos == Some(
                            c.timestamp.nanos_since_epoch,
                        ) && end_init == Some(c.end_init) && (peers matches Some((v, e)) && string_views(v@)
                            == string_views(c.known_peers@)) by {
                            lemma_advertisement_framing_parts(bytes@, pos as int, c);
                        }
                    }
                    match (secs, nanos, end_init, peers) {
                        (Some(secs), Some(nanos), Some(end_init), Some((known_peers, e2))) => {
                            let a = PeerAdvertisement {
                                public_key,
                                node_id,
                                node_name,
                                timestamp: Timestamp { secs_since_epoch: secs, nanos_since_epoch: nanos },
                                end_init,
                                known_peers,
                            };
                            proof {
                                lemma_advertisement_framing_parts(bytes@, pos as int, a);
                            }
                            Some((a, e2))
                        },
                        _ => None,
                    }
                },
                _ => None,
            }
        },
    }
}

/// Reads the IPv4 socket address at `pos` (see `socket_addr_bytes`).
pub fn read_socket_addr(bytes: &[u8], pos: usize) -> (r: Option<(SocketAddr, usize)>)
    ensures
        r matches Some((a, end)) ==> end == pos + 10 && framed_at(bytes@, pos as int, socket_addr_bytes(a)),
        forall|c: SocketAddr| #[trigger] framed_at(bytes@, pos as int, socket_addr_bytes(c)) ==> r == Some(
            (c, (pos + 10) as usize),
        ),
{
    let blen = bytes.len();
    proof {
        assert forall|c: SocketAddr| #[trigger] framed_at(bytes@, pos as int, socket_addr_bytes(c)) implies {
            &&& framed_at(bytes@, pos as int, le_u32(0))
            &&& framed_at(bytes@, pos + 4, c.ip@)
            &&& framed_at(bytes@, pos + 8, le_u16(c.port))
        } by {
            lemma_framed_concat(bytes@, pos as int, le_u32(0) + c.ip@, le_u16(c.port));
            lemma_framed_concat(bytes@, pos as int, le_u32(0), c.ip@);
        }
    }
    if pos > blen || blen - pos < 10 {
        return None;
    }
    let tag = read_u32(bytes, pos);
    let ip: Option<[u8; 4]> = read_array(bytes, pos + 4);
    let port = read_u16(bytes, pos + 8);
    match (tag, ip, port) {
        (Some(t), Some(ip), Some(port)) => {
            if t != 0 {
                return None;
            }
            let a = SocketAddr { ip, port };
            proof {
                lemma_framed_concat(bytes@, pos as int, le_u32(0) + a.ip@, le_u16(a.port));
                lemma_framed_concat(bytes@, pos as int, le_u32(0), a.ip@);
            }
            Some((a, pos + 10))
        },
        _ => None,
    }
}

/// The index of a payload's variant in the wire form.
pub open spec fn payload_index(p: MessagePayload) -> u32 {
    match p {
        MessagePayload::Block(_) => 0,
        MessagePayload::String(_) => 1,
        MessagePayload::PeerAdvertisement(_) => 2,
        MessagePayload::AppData(_) => 3,
        MessagePayload::SocketAddr(_) => 4,
        MessagePayload::Empty => 5,
    }
}

/// The payload's contents after its variant index.
pub open spec fn payload_body(p: MessagePayload) -> Seq<u8> {
    match p {
        MessagePayload::Block(b) => block_bytes(b),
        MessagePayload::String(s) => str_bytes(s@),
        MessagePayload::PeerAdvertisement(a) => advertisement_bytes(a),
        MessagePayload::AppData(d) => len_prefixed(d@),
        MessagePayload::SocketAddr(s) => socket_addr_bytes(s),
        MessagePayload::Empty => Seq::empty(),
    }
}

/// A payload's bytes are its variant index, then its contents.
proof fn lemma_payload_bytes_parts(bytes: Seq<u8>, pos: int, p: MessagePayload)
    ensures
        payload_bytes(p) == le_u32(payload_index(p)) + payload_body(p),
        framed_at(bytes, pos, payload_bytes(p)) <==> (framed_at(bytes, pos, le_u32(payload_index(p)))
            && framed_at(bytes, pos + 4, payload_body(p))),
{
    match p {
        MessagePayload::Empty => {
            assert(le_u32(5) + Seq::<u8>::empty() =~= le_u32(5));
        },
        _ => {},
    }
    lemma_framed_concat(bytes, pos, le_u32(payload_index(p)), payload_body(p));
}

/// Reads the payload at `pos` (see `payload_bytes`); gives the payload and
/// the position after it.
pub fn read_payload(bytes: &[u8], pos: usize) -> (r: Option<(MessagePayload, usize)>)
    ensures
        r matches Some((p, end)) ==> end == pos + payload_bytes(p).len() && framed_at(
            bytes@,
            pos as int,
            payload_bytes(p),
        ),
        forall|c: MessagePayload| #[trigger] framed_at(bytes@, pos as int, payload_bytes(c)) ==> (r matches Some(
            (p, end),
        ) && p@ == c@),
{
    let blen = bytes.len();
    let index = read_u32(bytes, pos);
    proof {
        assert forall|c: MessagePayload| #[trigger] framed_at(bytes@, pos as int, payload_bytes(c)) implies index
            == Some(payload_index(c)) && framed_at(bytes@, pos + 4, payload_body(c)) by {
            lemma_payload_bytes_parts(bytes@, pos as int, c);
        }
    }
    let i = match index {
        None => {
            return None;
        },
        Some(i) => i,
    };
    let body = pos + 4;
    if i == 0 {
        match read_block(bytes, body) {
            Some((b, end)) => {
                let p = MessagePayload::Block(b);
                proof {
                    lemma_payload_bytes_parts(bytes@, pos as int, p);
                }
                Some((p, end))
            },
            None => None,
        }
    } else if i == 1 {
        match read_str(bytes, body) {
            Some((s, end)) => {
                let p = MessagePayload::String(s);
                proof {
                    lemma_payload_bytes_parts(bytes@, pos as int, p);
                }
                Some((p, end))
            },
            None => None,
        }
    } else if i == 2 {
        match read_advertisement(bytes, body) {
            Some((a, end)) => {
                let p = MessagePayload::PeerAdvertisement(a);
                proof {
                    lemma_payload_bytes_parts(bytes@, pos as int, p);
                }
                Some((p, end))
            },
            None => None,
        }
    } else if i == 3 {
        match read_len_prefixed(bytes, body) {
            Some((d, end)) => {
                let p = MessagePayload::AppData(d);
                proof {
                    lemma_payload_bytes_parts(bytes@, pos as int, p);
                }
                Some((p, end))
            },
            None => None,
        }
    } else if i == 4 {
        match read_socket_addr(bytes, body) {
            Some((a, end)) => {
                let p = MessagePayload::SocketAddr(a);
                proof {
                    lemma_payload_bytes_parts(bytes@, pos as int, p);
                }
                Some((p, end))
            },
            None => None,
        }
    } else if i == 5 {
        let p = MessagePayload::Empty;
        proof {
            lemma_payload_bytes_parts(bytes@, pos as int, p);
            assert(framed_at(bytes@, pos + 4, Seq::<u8>::empty()));
        }
        Some((p, body))
    } else {
        None
    }
}

/// Payloads that hold the same values have the same bytes.
proof fn lemma_payload_bytes_view(p: MessagePayload, q: MessagePayload)
    requires
        p@ == q@,
    ensures
        payload_bytes(p) == payload_bytes(q),
{
    match (p, q) {
        (MessagePayload::PeerAdvertisement(a), MessagePayload::PeerAdvertisement(b)) => {
            lemma_strs_bytes_views(a.known_peers@, b.known_peers@);
            assert(string_views(a.known_peers@).len() == a.known_peers@.len());
            assert(string_views(b.known_peers@).len() == b.known_peers@.len());
        },
        _ => {},
    }
}

/// The framing of a message at the start of `bytes` is its fields at their offsets.
proof fn lemma_message_framing_parts(bytes: Seq<u8>, m: Message)
    ensures
        framed_at(bytes, 0, message_bytes(m)) <==> {
            let p = payload_bytes(m.payload).len() as int;
            let n = str_bytes(m.sender_name@);
            &&& framed_at(bytes, 0, payload_bytes(m.payload))
            &&& framed_at(bytes, p, le_u32(kind_index(m.kind)))
            &&& framed_at(bytes, p + 4, le_u32(m.nonce))
            &&& framed_at(bytes, p + 8, le_u32(m.tag))
            &&& framed_at(bytes, p + 12, le_u32(m.sender_id))
            &&& framed_at(bytes, p + 16, n)
            &&& framed_at(bytes, p + 16 + n.len(), sig_list_bytes(m.signatures@))
        },
{
    let x1 = payload_bytes(m.payload);
    let x2 = x1 + le_u32(kind_index(m.kind));
    let x3 = x2 + le_u32(m.nonce);
    let x4 = x3 + le_u32(m.tag);
    let x5 = x4 + le_u32(m.sender_id);
    let x6 = x5 + str_bytes(m.sender_name@);
    lemma_framed_concat(bytes, 0, x6, sig_list_bytes(m.signatures@));
    lemma_framed_concat(bytes, 0, x5, str_bytes(m.sender_name@));
    lemma_framed_concat(bytes, 0, x4, le_u32(m.sender_id));
    lemma_framed_concat(bytes, 0, x3, le_u32(m.tag));
    lemma_framed_concat(bytes, 0, x2, le_u32(m.nonce));
    lemma_framed_concat(bytes, 0, x1, le_u32(kind_index(m.kind)));
}

/// A message's own bytes frame that message at their start; so, by the
/// contract of `Message::deserialize`, reading back what
/// `Message::serialize` wrote gives the message that was written.
pub proof fn lemma_message_bytes_frame_message(m: Message)
    ensures
        framed_at(message_bytes(m), 0, message_bytes(m)),
{
    assert(message_bytes(m).subrange(0, message_bytes(m).len() as int) =~= message_bytes(m));
}

impl MessagePayload {
    /// Reads the payload that `encoded` begins with, if it begins with one.
    pub fn decode(encoded: &[u8]) -> (r: Option<MessagePayload>)
        ensures
            r matches Some(p) ==> framed_at(encoded@, 0, payload_bytes(p)),
            forall|c: MessagePayload| #[trigger] framed_at(encoded@, 0, payload_bytes(c)) ==> (r matches Some(p)
                && p@ == c@),
    {
        match read_payload(encoded, 0) {
            Some((p, _)) => Some(p),
            None => None,
        }
    }

    /// The payload that `encoded` begins with.
    pub fn deserialize(encoded: &Vec<u8>) -> (p: MessagePayload)
        requires
            exists|c: MessagePayload| #[trigger] framed_at(encoded@, 0, payload_bytes(c)),
        ensures
            framed_at(encoded@, 0, payload_bytes(p)),
            forall|c: MessagePayload| #[trigger] framed_at(encoded@, 0, payload_bytes(c)) ==> p@ == c@,
    {
        let r = MessagePayload::decode(encoded.as_slice());
        let ghost c = choose|c: MessagePayload| #[trigger] framed_at(encoded@, 0, payload_bytes(c));
        assert(framed_at(encoded@, 0, payload_bytes(c)));
        match r {
            Some(p) => p,
            None => {
                assert(false);
                MessagePayload::Empty
            },
        }
    }
}

impl Message {
    /// The message's bytes (see `message_bytes`).
    pub fn serialize(&self) -> (bytes: Vec<u8>)
        ensures
            bytes@ == message_bytes(*self),
    {
        let mut out = self.payload.serialize();
        push_u32(&mut out, kind_to_index(self.kind));
        push_u32(&mut out, self.nonce);
        push_u32(&mut out, self.tag);
        push_u32(&mut out, self.sender_id);
        push_str(&mut out, self.sender_name.as_str());
        push_signatures(&mut out, &self.signatures);
        assert(out@ =~= message_bytes(*self));
        out
    }

    /// Reads the message that `encoded` begins with, if it begins with one.
    pub fn decode(encoded: &[u8]) -> (r: Option<Message>)
        ensures
            r matches Some(m) ==> framed_at(encoded@, 0, message_bytes(m)),
            forall|c: Message| #[trigger] framed_at(encoded@, 0, message_bytes(c)) ==> (r matches Some(m) && m@
                == c@),
    {
        let blen = encoded.len();
        let payload = read_payload(encoded, 0);
        proof {
            assert forall|c: Message| #[trigger] framed_at(encoded@, 0, message_bytes(c)) implies (
            payload matches Some((p, e)) && p@ == c.payload@) by {
                lemma_message_framing_parts(encoded@, c);
            }
        }
        let (payload, e0) = match payload {
            Some(x) => x,
            None => {
                return None;
            },
        };
        if e0 > blen || blen - e0 < 16 {
            proof {
                assert forall|c: Message| #[trigger] framed_at(encoded@, 0, message_bytes(c)) implies false by {
                    lemma_message_framing_parts(encoded@, c);
                    lemma_payload_bytes_view(payload, c.payload);
                }
            }
            return None;
        }
        let kind = read_u32(encoded, e0);
        let nonce = read_u32(encoded, e0 + 4);
        let tag = read_u32(encoded, e0 + 8);
        let sender_id = read_u32(encoded, e0 + 12);
        let name = read_str(encoded, e0 + 16);
        proof {
            assert forall|c: Message| #[trigger] framed_at(encoded@, 0, message_bytes(c)) implies kind == Some(
                kind_index(c.kind),
            ) && nonce == Some(c.nonce) && tag == Some(c.tag) && sender_id == Some(c.sender_id) && (
            name matches Some((s, e)) && s@ == c.sender_name@) by {
                lemma_message_framing_parts(encoded@, c);
                lemma_payload_bytes_view(payload, c.payload);
            }
        }
        match (kind, nonce, tag, sender_id, name) {
            (Some(k), Some(nonce), Some(tag), Some(sender_id), Some((sender_name, e1))) => {
                let kind = kind_from_index(k);
                let sigs = read_signatures(encoded, e1);
                proof {
                    assert forall|c: Message| #[trigger] framed_at(encoded@, 0, message_bytes(c)) implies kind
                        == Some(c.kind) && (sigs matches Some((v, e)) && v@ == c.signatures@) by {
                        lemma_message_framing_parts(encoded@, c);
                        lemma_payload_bytes_view(payload, c.payload);
                        vstd::utf8::encode_utf8_decode_utf8(sender_name@);
                    }
                }
                match (kind, sigs) {
                    (Some(kind), Some((signatures, _))) => {
                        let m = Message { payload, kind, nonce, tag, sender_id, sender_name, signatures };
                        proof {
                            lemma_message_framing_parts(encoded@, m);
                        }
                        Some(m)
                    },
                    _ => None,
                }
            },
            _ => None,
        }
    }

    /// The message that `encoded` begins with.
    pub fn deserialize(encoded: &Vec<u8>) -> (m: Message)
        requires
            exists|c: Message| #[trigger] framed_at(encoded@, 0, message_bytes(c)),
        ensures
            framed_at(encoded@, 0, message_bytes(m)),
            forall|c: Message| #[trigger] framed_at(encoded@, 0, message_bytes(c)) ==> m@ == c@,
    {
        let r = Message::decode(encoded.as_slice());
        let ghost c = choose|c: Message| #[trigger] framed_at(encoded@, 0, message_bytes(c));
        assert(framed_at(encoded@, 0, message_bytes(c)));
        match r {
            Some(m) => m,
            None => {
                assert(false);
                Message {
                    payload: MessagePayload::Empty,
                    kind: MessageKind::Test,
                    nonce: 0,
                    tag: 0,
                    sender_id: 0,
                    sender_name: String::new(),
                    signatures: Vec::new(),
                }
            },
        }
    }
}

/// The framed strings at a position, for lists of one length, are
/// determined by the bytes.
proof fn lemma_strs_framed_unique(bytes: Seq<u8>, pos: int, s: Seq<String>, t: Seq<String>)
    requires
        bytes.len() <= u64::MAX,
        s.len() == t.len(),
        framed_at(bytes, pos, strs_bytes(s)),
        framed_at(bytes, pos, strs_bytes(t)),
    ensures
        string_views(s) == string_views(t),
    decreases s.len(),
{
    if s.len() > 0 {
        lemma_strs_bytes_split(s, 0);
        lemma_strs_bytes_split(t, 0);
        assert(s.take(0) =~= Seq::<String>::empty());
        assert(t.take(0) =~= Seq::<String>::empty());
        assert(strs_bytes(s) =~= str_bytes(s[0]@) + strs_bytes(s.skip(1)));
        assert(strs_bytes(t) =~= str_bytes(t[0]@) + strs_bytes(t.skip(1)));
        lemma_framed_concat(bytes, pos, str_bytes(s[0]@), strs_bytes(s.skip(1)));
        lemma_framed_concat(bytes, pos, str_bytes(t[0]@), strs_bytes(t.skip(1)));
        lemma_str_framed_unique(bytes, pos, s[0]@, t[0]@);
        lemma_strs_framed_unique(bytes, pos + str_bytes(s[0]@).len(), s.skip(1), t.skip(1));
        assert(string_views(s) =~= seq![s[0]@] + string_views(s.skip(1)));
        assert(string_views(t) =~= seq![t[0]@] + string_views(t.skip(1)));
    } else {
        assert(string_views(s) =~= string_views(t));
    }
}

/// The list of strings framed at a position is determined by the bytes.
proof fn lemma_str_list_framed_unique(bytes: Seq<u8>, pos: int, s: Seq<String>, t: Seq<String>)
    requires
        bytes.len() <= u64::MAX,
        framed_at(bytes, pos, str_list_bytes(s)),
        framed_at(bytes, pos, str_list_bytes(t)),
    ensures
        string_views(s) == string_views(t),
{
    lemma_framed_concat(bytes, pos, le_u64(s.len() as u64), strs_bytes(s));
    lemma_framed_concat(bytes, pos, le_u64(t.len() as u64), strs_bytes(t));
    lemma_strs_bytes_len(s);
    lemma_strs_bytes_len(t);
    lemma_u64_framed_unique(bytes, pos, s.len() as u64, t.len() as u64);
    lemma_strs_framed_unique(bytes, pos + 8, s, t);
}

/// An array framed at a position is determined by the bytes.
proof fn lemma_array_framed_unique<const N: usize>(bytes: Seq<u8>, pos: int, a: [u8; N], b: [u8; N])
    requires
        framed_at(bytes, pos, a@),
        framed_at(bytes, pos, b@),
    ensures
        a == b,
{
    broadcast use vstd::array::group_array_axioms;
    lemma_framed_same(bytes, pos, a@, b@);
    assert forall|i: int| 0 <= i < N implies a[i] == b[i] by {
        assert(a@[i] == b@[i]);
    }
    assert(a =~= b);
}

/// The block framed at a position is determined by the bytes.
proof fn lemma_block_framed_unique(bytes: Seq<u8>, pos: int, a: Block, b: Block)
    requires
        bytes.len() <= u64::MAX,
        framed_at(bytes, pos, block_bytes(a)),
        framed_at(bytes, pos, block_bytes(b)),
    ensures
        a@ == b@,
{
    lemma_block_framing_parts(bytes, pos, a);
    lemma_block_framing_parts(bytes, pos, b);
    lemma_u64_framed_unique(bytes, pos, a.epoch, b.epoch);
    lemma_framed_same(bytes, pos + 8, a.hash@, b.hash@);
    lemma_framed_same(bytes, pos + 40, a.parent_hash@, b.parent_hash@);
    lemma_len_prefixed_framed_unique(bytes, pos + 72, a.data@, b.data@);
    let d = len_prefixed(a.data@).len();
    lemma_u64_framed_unique(bytes, pos + 72 + d, a.height, b.height);
    lemma_u64_framed_unique(bytes, pos + 80 + d, a.nonce, b.nonce);
}

/// The advertisement framed at a position is determined by the bytes.
proof fn lemma_advertisement_framed_unique(bytes: Seq<u8>, pos: int, a: PeerAdvertisement, b: PeerAdvertisement)
    requires
        bytes.len() <= u64::MAX,
        framed_at(bytes, pos, advertisement_bytes(a)),
        framed_at(bytes, pos, advertisement_bytes(b)),
    ensures
        a@ == b@,
{
    lemma_advertisement_framing_parts(bytes, pos, a);
    lemma_advertisement_framing_parts(bytes, pos, b);
    lemma_len_prefixed_framed_unique(bytes, pos, a.public_key.bytes@, b.public_key.bytes@);
    lemma_u32_framed_unique(bytes, pos + 40, a.node_id, b.node_id);
    lemma_str_framed_unique(bytes, pos + 44, a.node_name@, b.node_name@);
    let n = str_bytes(a.node_name@).len();
    lemma_u64_framed_unique(bytes, pos + 44 + n, a.timestamp.secs_since_epoch, b.timestamp.secs_since_epoch);
    lemma_u32_framed_unique(bytes, pos + 52 + n, a.timestamp.nanos_since_epoch, b.timestamp.nanos_since_epoch);
    lemma_framed_same(bytes, pos + 56 + n, enc_bool(a.end_init), enc_bool(b.end_init));
    assert(enc_bool(a.end_init)[0] == enc_bool(b.end_init)[0]);
    lemma_str_list_framed_unique(bytes, pos + 57 + n, a.known_peers@, b.known_peers@);
}

/// The socket address framed at a position is determined by the bytes.
proof fn lemma_socket_addr_framed_unique(bytes: Seq<u8>, pos: int, a: SocketAddr, b: SocketAddr)
    requires
        framed_at(bytes, pos, socket_addr_bytes(a)),
        framed_at(bytes, pos, socket_addr_bytes(b)),
    ensures
        a == b,
{
    lemma_framed_concat(bytes, pos, le_u32(0) + a.ip@, le_u16(a.port));
    lemma_framed_concat(bytes, pos, le_u32(0), a.ip@);
    lemma_framed_concat(bytes, pos, le_u32(0) + b.ip@, le_u16(b.port));
    lemma_framed_concat(bytes, pos, le_u32(0), b.ip@);
    lemma_array_framed_unique(bytes, pos + 4, a.ip, b.ip);
    lemma_framed_same(bytes, pos + 8, le_u16(a.port), le_u16(b.port));
    lemma_le_u16_injective(a.port, b.port);
}

/// The payload framed at a position is determined by the bytes.
proof fn lemma_payload_framed_unique(bytes: Seq<u8>, pos: int, a: MessagePayload, b: MessagePayload)
    requires
        bytes.len() <= u64::MAX,
        framed_at(bytes, pos, payload_bytes(a)),
        framed_at(bytes, pos, payload_bytes(b)),
    ensures
        a@ == b@,
{
    lemma_payload_bytes_parts(bytes, pos, a);
    lemma_payload_bytes_parts(bytes, pos, b);
    lemma_u32_framed_unique(bytes, pos, payload_index(a), payload_index(b));
    match (a, b) {
        (MessagePayload::Block(x), MessagePayload::Block(y)) => {
            lemma_block_framed_unique(bytes, pos + 4, x, y);
        },
        (MessagePayload::String(x), MessagePayload::String(y)) => {
            lemma_str_framed_unique(bytes, pos + 4, x@, y@);
        },
        (MessagePayload::PeerAdvertisement(x), MessagePayload::PeerAdvertisement(y)) => {
            lemma_advertisement_framed_unique(bytes, pos + 4, x, y);
        },
        (MessagePayload::AppData(x), MessagePayload::AppData(y)) => {
            lemma_len_prefixed_framed_unique(bytes, pos + 4, x@, y@);
        },
        (MessagePayload::SocketAddr(x), MessagePayload::SocketAddr(y)) => {
            lemma_socket_addr_framed_unique(bytes, pos + 4, x, y);
        },
        _ => {},
    }
}

/// A byte string that begins with the bytes of one message begins with the
/// bytes of no message that differs from it: reading back the bytes that
/// `Message::serialize` wrote gives the message that was written, and no
/// other message is written as the same bytes.
pub proof fn lemma_message_framing_unambiguous(bytes: Seq<u8>, a: Message, b: Message)
    requires
        bytes.len() <= u64::MAX,
        framed_at(bytes, 0, message_bytes(a)),
        framed_at(bytes, 0, message_bytes(b)),
    ensures
        a@ == b@,
{
    lemma_message_framing_parts(bytes, a);
    lemma_message_framing_parts(bytes, b);
    lemma_payload_framed_unique(bytes, 0, a.payload, b.payload);
    lemma_payload_bytes_view(a.payload, b.payload);
    let p = payload_bytes(a.payload).len() as int;
    lemma_u32_framed_unique(bytes, p, kind_index(a.kind), kind_index(b.kind));
    lemma_u32_framed_unique(bytes, p + 4, a.nonce, b.nonce);
    lemma_u32_framed_unique(bytes, p + 8, a.tag, b.tag);
    lemma_u32_framed_unique(bytes, p + 12, a.sender_id, b.sender_id);
    lemma_str_framed_unique(bytes, p + 16, a.sender_name@, b.sender_name@);
    let n = str_bytes(a.sender_name@).len();
    lemma_signatures_framed_unique(bytes, p + 16 + n, a.signatures@, b.signatures@);
}

} // verus!
