//! Messages of the sketch: a header, a proposal payload, signatures and a
//! kind. The payload's framing is what signatures are computed over, and it
//! reads back as the payload it frames.
use vstd::prelude::*;
use vstd::utf8::encode_utf8;
use crate::crypto::{Sha256Hash, Signature};
use crate::decoding::{
    framed_at, lemma_framed_concat, lemma_framed_same, lemma_str_framed_unique, lemma_u32_framed_unique,
    read_array, read_str, read_u32,
};
use crate::encoding::{le_u32, len_prefixed, push_bytes, push_str, push_u32};
use crate::messages::str_bytes;

verus! {

/// Where a message goes.
#[derive(Debug, Clone, Copy)]
pub struct MessageHeader {
    pub destination: u32,
}

/// A proposal: the parent's hash, the epoch and the block's data.
#[derive(Debug)]
pub struct MessagePayload {
    pub parent_hash: Sha256Hash,
    pub epoch: u32,
    pub payload_string: String,
}

/// Whether a message votes or proposes.
#[derive(Debug, Clone, Copy, PartialEq, Eq, Structural)]
pub enum MessageType {
    Vote,
    Propose,
}

/// A message: header, payload, the signatures on the payload, and its kind.
#[derive(Debug)]
pub struct Message {
    pub header: MessageHeader,
    pub payload: MessagePayload,
    pub signatures: Vec<Signature>,
    pub kind: MessageType,
}

impl View for MessagePayload {
    type V = (Seq<u8>, u32, Seq<char>);

    open spec fn view(&self) -> (Seq<u8>, u32, Seq<char>) {
        (self.parent_hash@, self.epoch, self.payload_string@)
    }
}

/// The bytes of a payload: the parent hash's 32 bytes, the epoch as a
/// little-endian u32, then the data's UTF-8 bytes preceded by their length
/// as a little-endian u64.
pub open spec fn payload_bytes(p: MessagePayload) -> Seq<u8> {
    p.parent_hash@ + le_u32(p.epoch) + str_bytes(p.payload_string@)
}

/// A byte string that holds the bytes of one payload at `pos` holds there
/// the bytes of no payload that differs from it: the framing reads back as
/// the payload it frames.
pub proof fn lemma_payload_framing_unambiguous(bytes: Seq<u8>, pos: int, p: MessagePayload, q: MessagePayload)
    requires
        bytes.len() <= u64::MAX,
        framed_at(bytes, pos, payload_bytes(p)),
        framed_at(bytes, pos, payload_bytes(q)),
    ensures
        p@ == q@,
{
    lemma_payload_framing_parts(bytes, pos, p);
    lemma_payload_framing_parts(bytes, pos, q);
    lemma_framed_same(bytes, pos, p.parent_hash@, q.parent_hash@);
    lemma_u32_framed_unique(bytes, pos + 32, p.epoch, q.epoch);
    lemma_str_framed_unique(bytes, pos + 36, p.payload_string@, q.payload_string@);
}

/// The framing of a payload at `pos` is its three parts at their offsets.
proof fn lemma_payload_framing_parts(bytes: Seq<u8>, pos: int, p: MessagePayload)
    ensures
        framed_at(bytes, pos, payload_bytes(p)) <==> (framed_at(bytes, pos, p.parent_hash@) && framed_at(
            bytes,
            pos + 32,
            le_u32(p.epoch),
        ) && framed_at(bytes, pos + 36, str_bytes(p.payload_string@))),
{
    lemma_framed_concat(bytes, pos, p.parent_hash@ + le_u32(p.epoch), str_bytes(p.payload_string@));
    lemma_framed_concat(bytes, pos, p.parent_hash@, le_u32(p.epoch));
}

/// Reads the payload at `pos`; gives the payload and the position after it.
pub fn read_message_payload(bytes: &[u8], pos: usize) -> (r: Option<(MessagePayload, usize)>)
    ensures
        r matches Some((p, end)) ==> end == pos + payload_bytes(p).len() && framed_at(
            bytes@,
            pos as int,
            payload_bytes(p),
        ),
        forall|q: MessagePayload| #[trigger] framed_at(bytes@, pos as int, payload_bytes(q)) ==> (r matches Some(
            (p, end),
        ) && p@ == q@),
{
    let blen = bytes.len();
    if pos > blen || blen - pos < 36 {
        proof {
            assert forall|q: MessagePayload| #[trigger] framed_at(bytes@, pos as int, payload_bytes(q)) implies false by {
                lemma_payload_framing_parts(bytes@, pos as int, q);
            }
        }
        return None;
    }
    let parent_hash: Option<[u8; 32]> = read_array(bytes, pos);
    let epoch = read_u32(bytes, pos + 32);
    let text = read_str(bytes, pos + 36);
    proof {
        assert forall|q: MessagePayload| #[trigger] framed_at(bytes@, pos as int, payload_bytes(q)) implies (
        parent_hash == Some(q.parent_hash) && epoch == Some(q.epoch) && (text matches Some((s, e)) && s@
            == q.payload_string@)) by {
            lemma_payload_framing_parts(bytes@, pos as int, q);
        }
    }
    match (parent_hash, epoch, text) {
        (Some(h), Some(e), Some((s, end))) => {
            let p = MessagePayload { parent_hash: h, epoch: e, payload_string: s };
            proof {
                lemma_payload_framing_parts(bytes@, pos as int, p);
            }
            Some((p, end))
        },
        _ => None,
    }
}

impl MessagePayload {
    /// The payload's bytes (see `payload_bytes`).
    pub fn serialize(&self) -> (bytes: Vec<u8>)
        ensures
            bytes@ == payload_bytes(*self),
    {
        let mut out: Vec<u8> = Vec::new();
        push_bytes(&mut out, self.parent_hash.as_slice());
        push_u32(&mut out, self.epoch);
        push_str(&mut out, self.payload_string.as_str());
        assert(out@ =~= payload_bytes(*self));
        out
    }

    /// Reads the payload that `encoded` begins with, if it begins with one.
    pub fn decode(encoded: &[u8]) -> (r: Option<MessagePayload>)
        ensures
            r matches Some(p) ==> framed_at(encoded@, 0, payload_bytes(p)),
            forall|q: MessagePayload| #[trigger] framed_at(encoded@, 0, payload_bytes(q)) ==> (r matches Some(p)
                && p@ == q@),
    {
        match read_message_payload(encoded, 0) {
            Some((p, _)) => Some(p),
            None => None,
        }
    }

    /// The payload that `encoded` begins with.
    pub fn deserialize(encoded: &Vec<u8>) -> (p: MessagePayload)
        requires
            exists|q: MessagePayload| #[trigger] framed_at(encoded@, 0, payload_bytes(q)),
        ensures
            framed_at(encoded@, 0, payload_bytes(p)),
            forall|q: MessagePayload| #[trigger] framed_at(encoded@, 0, payload_bytes(q)) ==> p@ == q@,
    {
        let r = MessagePayload::decode(encoded.as_slice());
        let ghost q = choose|q: MessagePayload| #[trigger] framed_at(encoded@, 0, payload_bytes(q));
        assert(framed_at(encoded@, 0, payload_bytes(q)));
        match r {
            Some(p) => p,
            None => {
                assert(false);
                MessagePayload { parent_hash: [0u8; 32], epoch: 0, payload_string: String::new() }
            },
        }
    }
}

impl Message {
    /// The bytes that signatures on this message are computed over.
    pub fn serialize_payload(&self) -> (bytes: Vec<u8>)
        ensures
            bytes@ == payload_bytes(self.payload),
    {
        self.payload.serialize()
    }
}

} // verus!
