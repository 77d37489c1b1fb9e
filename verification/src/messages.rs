//! Protocol messages: a payload, its kind, identifiers of the sender, and the
//! signatures collected on the payload. The payload's byte framing is what
//! every signature is computed over.
use rand::Rng;
use vstd::prelude::*;
use crate::blockchain::block::{Block, sigs_view};
use crate::crypto::Signature;
use crate::encoding::{
    enc_bool, le_u16, le_u32, le_u64, len_prefixed, push_bool, push_bytes, push_len_prefixed,
    push_str, push_u16, push_u32, push_u64,
};
use crate::peer_init::{PeerAdvertisement, Timestamp};

verus! {

/// What a message asks of, or tells, its receivers.
#[derive(Debug, Clone, Copy, PartialEq, Eq, Structural)]
pub enum MessageKind {
    Vote,
    Propose,
    Test,
    PeerInit,
    AppRequest,
    AppSend,
    AppBlockRequest,
    AppBlockResponse,
    AppChainRequest,
    AppChainResponse,
}

/// An IPv4 socket address: four address bytes and a port.
#[derive(Debug, Clone, Copy)]
pub struct SocketAddr {
    pub ip: [u8; 4],
    pub port: u16,
}

/// What a message carries.
#[derive(Debug)]
pub enum MessagePayload {
    Block(Block),
    String(String),
    PeerAdvertisement(PeerAdvertisement),
    AppData(Vec<u8>),
    SocketAddr(SocketAddr),
    Empty,
}

/// A protocol message. `signatures` are signatures of the payload's bytes.
#[derive(Debug)]
pub struct Message {
    pub payload: MessagePayload,
    pub kind: MessageKind,
    pub nonce: u32,
    pub tag: u32,
    pub sender_id: u32,
    pub sender_name: String,
    pub signatures: Vec<Signature>,
}

/// The UTF-8 bytes of a string, preceded by their length.
pub open spec fn str_bytes(s: Seq<char>) -> Seq<u8> {
    len_prefixed(vstd::utf8::encode_utf8(s))
}

/// The framed strings of a list, one after the other.
pub open spec fn strs_bytes(s: Seq<String>) -> Seq<u8>
    decreases s.len(),
{
    if s.len() == 0 {
        Seq::empty()
    } else {
        strs_bytes(s.drop_last()) + str_bytes(s.last()@)
    }
}

/// A list of strings: its length, then each framed string.
pub open spec fn str_list_bytes(s: Seq<String>) -> Seq<u8> {
    le_u64(s.len() as u64) + strs_bytes(s)
}

/// The bytes of a block's fields in declaration order.
pub open spec fn block_bytes(b: Block) -> Seq<u8> {
    le_u64(b.epoch) + b.hash@ + b.parent_hash@ + len_prefixed(b.data@) + le_u64(b.height) + le_u64(b.nonce)
}

/// The bytes of a timestamp: seconds, then nanoseconds.
pub open spec fn timestamp_bytes(t: Timestamp) -> Seq<u8> {
    le_u64(t.secs_since_epoch) + le_u32(t.nanos_since_epoch)
}

/// The bytes of a peer advertisement's fields in declaration order.
pub open spec fn advertisement_bytes(a: PeerAdvertisement) -> Seq<u8> {
    len_prefixed(a.public_key.bytes@) + le_u32(a.node_id) + str_bytes(a.node_name@) + timestamp_bytes(
        a.timestamp,
    ) + enc_bool(a.end_init) + str_list_bytes(a.known_peers@)
}

/// The bytes of an IPv4 socket address.
pub open spec fn socket_addr_bytes(s: SocketAddr) -> Seq<u8> {
    le_u32(0) + s.ip@ + le_u16(s.port)
}

/// The bytes of a payload: the variant's index, then its contents.
pub open spec fn payload_bytes(p: MessagePayload) -> Seq<u8> {
    match p {
        MessagePayload::Block(b) => le_u32(0) + block_bytes(b),
        MessagePayload::String(s) => le_u32(1) + str_bytes(s@),
        MessagePayload::PeerAdvertisement(a) => le_u32(2) + advertisement_bytes(a),
        MessagePayload::AppData(d) => le_u32(3) + len_prefixed(d@),
        MessagePayload::SocketAddr(s) => le_u32(4) + socket_addr_bytes(s),
        MessagePayload::Empty => le_u32(5),
    }
}

/// Calls `rand::thread_rng().gen::<u32>()`. Trusted for nothing: the value is random.
#[verifier::external_body]
pub(crate) fn random_u32() -> u32 {
    rand::thread_rng().gen()
}

/// Appends the framed strings of a list, preceded by the list's length.
fn push_str_list(out: &mut Vec<u8>, list: &Vec<String>)
    ensures
        final(out)@ == old(out)@ + str_list_bytes(list@),
{
    push_u64(out, list.len() as u64);
    let ghost start = out@;
    let mut i: usize = 0;
    while i < list.len()
        invariant
            i <= list@.len(),
            out@ == start + strs_bytes(list@.take(i as int)),
        decreases list@.len() - i,
    {
        push_str(out, list[i].as_str());
        proof {
            assert(list@.take(i + 1).drop_last() =~= list@.take(i as int));
            assert(list@.take(i + 1).last() == list@[i as int]);
            assert(out@ =~= start + strs_bytes(list@.take(i + 1)));
        }
        i = i + 1;
    }
    assert(list@.take(i as int) =~= list@);
    assert(out@ =~= old(out)@ + str_list_bytes(list@));
}

/// Appends the bytes of a block.
fn push_block(out: &mut Vec<u8>, b: &Block)
    ensures
        final(out)@ == old(out)@ + block_bytes(*b),
{
    push_u64(out, b.epoch);
    push_bytes(out, b.hash.as_slice());
    push_bytes(out, b.parent_hash.as_slice());
    push_len_prefixed(out, b.data.as_slice());
    push_u64(out, b.height);
    push_u64(out, b.nonce);
    assert(out@ =~= old(out)@ + block_bytes(*b));
}

/// Appends the bytes of a peer advertisement.
fn push_advertisement(out: &mut Vec<u8>, a: &PeerAdvertisement)
    ensures
        final(out)@ == old(out)@ + advertisement_bytes(*a),
{
    push_len_prefixed(out, a.public_key.bytes.as_slice());
    push_u32(out, a.node_id);
    push_str(out, a.node_name.as_str());
    push_u64(out, a.timestamp.secs_since_epoch);
    push_u32(out, a.timestamp.nanos_since_epoch);
    push_bool(out, a.end_init);
    push_str_list(out, &a.known_peers);
    assert(out@ =~= old(out)@ + advertisement_bytes(*a));
}

impl MessagePayload {
    /// The payload's bytes: the variant's index as a little-endian u32, then
    /// the fields, integers little-endian, byte strings, strings and lists
    /// preceded by their length as a little-endian u64.
    pub fn serialize(&self) -> (bytes: Vec<u8>)
        ensures
            bytes@ == payload_bytes(*self),
    {
        let mut out: Vec<u8> = Vec::new();
        match self {
            MessagePayload::Block(b) => {
                push_u32(&mut out, 0);
                push_block(&mut out, b);
            },
            MessagePayload::String(s) => {
                push_u32(&mut out, 1);
                push_str(&mut out, s.as_str());
            },
            MessagePayload::PeerAdvertisement(a) => {
                push_u32(&mut out, 2);
                push_advertisement(&mut out, a);
            },
            MessagePayload::AppData(d) => {
                push_u32(&mut out, 3);
                push_len_prefixed(&mut out, d.as_slice());
            },
            MessagePayload::SocketAddr(s) => {
                push_u32(&mut out, 4);
                push_u32(&mut out, 0);
                push_bytes(&mut out, s.ip.as_slice());
                push_u16(&mut out, s.port);
            },
            MessagePayload::Empty => {
                push_u32(&mut out, 5);
            },
        }
        assert(out@ =~= payload_bytes(*self));
        out
    }
}

impl Message {
    /// A message with random nonce and tag and no signatures.
    pub fn new(payload: MessagePayload, kind: MessageKind, sender_id: u32, sender_name: String) -> (m: Message)
        ensures
            m.payload == payload,
            m.kind == kind,
            m.sender_id == sender_id,
            m.sender_name == sender_name,
            m.signatures@.len() == 0,
    {
        Message {
            payload,
            kind,
            nonce: random_u32(),
            tag: random_u32(),
            sender_id,
            sender_name,
            signatures: Vec::new(),
        }
    }

    /// A message with the given nonce, a random tag and no signatures.
    pub fn new_with_defined_nonce(
        payload: MessagePayload,
        kind: MessageKind,
        nonce: u32,
        sender_id: u32,
        sender_name: String,
    ) -> (m: Message)
        ensures
            m.payload == payload,
            m.kind == kind,
            m.nonce == nonce,
            m.sender_id == sender_id,
            m.sender_name == sender_name,
            m.signatures@.len() == 0,
    {
        Message { payload, kind, nonce, tag: random_u32(), sender_id, sender_name, signatures: Vec::new() }
    }

    /// A message with the given tag, a random nonce and no signatures.
    pub fn new_with_defined_tag(
        payload: MessagePayload,
        kind: MessageKind,
        tag: u32,
        sender_id: u32,
        sender_name: String,
    ) -> (m: Message)
        ensures
            m.payload == payload,
            m.kind == kind,
            m.tag == tag,
            m.sender_id == sender_id,
            m.sender_name == sender_name,
            m.signatures@.len() == 0,
    {
        Message { payload, kind, nonce: random_u32(), tag, sender_id, sender_name, signatures: Vec::new() }
    }

    /// The bytes that signatures on this message are computed over.
    pub fn serialize_payload(&self) -> (bytes: Vec<u8>)
        ensures
            bytes@ == payload_bytes(self.payload),
    {
        self.payload.serialize()
    }

    /// The signatures, consuming the message.
    pub fn get_signatures(self) -> (sigs: Vec<Signature>)
        ensures
            sigs@ == self.signatures@,
    {
        self.signatures
    }

    /// Adds a signature.
    pub fn sign_message(&mut self, signature: Signature)
        ensures
            final(self).signatures@ == old(self).signatures@.push(signature),
            final(self).payload == old(self).payload,
            final(self).kind == old(self).kind,
            final(self).nonce == old(self).nonce,
            final(self).tag == old(self).tag,
            final(self).sender_id == old(self).sender_id,
            final(self).sender_name == old(self).sender_name,
    {
        self.signatures.push(signature)
    }

    /// The number of signatures.
    pub fn signature_count(&self) -> (n: usize)
        ensures
            n == self.signatures@.len(),
    {
        self.signatures.len()
    }
}

} // verus!
