//! Addressed messages of the sketch: a destination, a proposal payload, the
//! signatures on it and a kind, with their wire form and its reading back.
use vstd::prelude::*;
use crate::crypto::Signature;
use crate::decoding::{
    framed_at, lemma_framed_concat, lemma_signatures_framed_unique, lemma_str_framed_unique,
    lemma_u32_framed_unique, read_signatures, read_str, read_u32,
};
use crate::encoding::{le_u32, push_signatures, push_str, push_u32, sig_list_bytes};
use crate::messages::str_bytes;
pub use crate::prototype::utils::messages::MessagePayload;
use crate::prototype::utils::messages::{
    lemma_payload_framing_unambiguous, payload_bytes, read_message_payload,
};

verus! {

/// Where a message goes: the destination's name.
#[derive(Debug)]
pub struct MessageHeader {
    pub destination: String,
}

/// Whether a message votes or proposes.
#[derive(Debug, Clone, Copy, PartialEq, Eq, Structural)]
pub enum MessageKind {
    Vote,
    Propose,
}

/// A message: header, payload, the signatures on the payload, and its kind.
#[derive(Debug)]
pub struct Message {
    pub header: MessageHeader,
    pub payload: MessagePayload,
    pub signatures: Vec<Signature>,
    pub kind: MessageKind,
}

/// What a message holds, as mathematical values.
pub struct MessageModel {
    pub destination: Seq<char>,
    pub payload: (Seq<u8>, u32, Seq<char>),
    pub signatures: Seq<Signature>,
    pub kind: MessageKind,
}

impl View for Message {
    type V = MessageModel;

    open spec fn view(&self) -> MessageModel {
        MessageModel {
            destination: self.header.destination@,
            payload: self.payload@,
            signatures: self.signatures@,
            kind: self.kind,
        }
    }
}

/// The index of a kind in the wire form.
pub open spec fn kind_index(k: MessageKind) -> u32 {
    match k {
        MessageKind::Vote => 0,
        MessageKind::Propose => 1,
    }
}

/// The bytes of a message: the destination, the payload, the signatures,
/// then the kind's index as a little-endian u32.
pub open spec fn message_bytes(m: Message) -> Seq<u8> {
    str_bytes(m.header.destination@) + payload_bytes(m.payload) + sig_list_bytes(m.signatures@) + le_u32(
        kind_index(m.kind),
    )
}

/// The framing of a message at the start of `bytes` is its parts at their offsets.
proof fn lemma_message_framing_parts(bytes: Seq<u8>, m: Message)
    ensures
        framed_at(bytes, 0, message_bytes(m)) <==> {
            let d = str_bytes(m.header.destination@).len() as int;
            let p = payload_bytes(m.payload).len() as int;
            let s = sig_list_bytes(m.signatures@).len() as int;
            &&& framed_at(bytes, 0, str_bytes(m.header.destination@))
            &&& framed_at(bytes, d, payload_bytes(m.payload))
            &&& framed_at(bytes, d + p, sig_list_bytes(m.signatures@))
            &&& framed_at(bytes, d + p + s, le_u32(kind_index(m.kind)))
        },
{
    let x1 = str_bytes(m.header.destination@);
    let x2 = x1 + payload_bytes(m.payload);
    let x3 = x2 + sig_list_bytes(m.signatures@);
    lemma_framed_concat(bytes, 0, x3, le_u32(kind_index(m.kind)));
    lemma_framed_concat(bytes, 0, x2, sig_list_bytes(m.signatures@));
    lemma_framed_concat(bytes, 0, x1, payload_bytes(m.payload));
}

/// A message's own bytes frame that message at their start; so, by the
/// contract of `Message::deserialize`, reading back what
/// `Message::serialize` wrote gives the message that was written.
pub proof fn lemma_message_bytes_frame_message(m: Message)
    ensures
        framed_at(message_bytes(m), 0, message_bytes(m)),
{
    assert(message_bytes(m).subrange(0, message_bytes(m).len() as int) =~= message_bytes(m));
}

/// A byte string that begins with the bytes of one message begins with the
/// bytes of no message that differs from it.
pub proof fn lemma_message_framing_unambiguous(bytes: Seq<u8>, a: Message, b: Message)
    requires
        bytes.len() <= u64::MAX,
        framed_at(bytes, 0, message_bytes(a)),
        framed_at(bytes, 0, message_bytes(b)),
    ensures
        a@ == b@,
{
    lemma_message_framing_parts(bytes, a);
    lemma_message_framing_parts(bytes, b);
    lemma_str_framed_unique(bytes, 0, a.header.destination@, b.header.destination@);
    let d = str_bytes(a.header.destination@).len() as int;
    lemma_payload_framing_unambiguous(bytes, d, a.payload, b.payload);
    let p = payload_bytes(a.payload).len() as int;
    assert(payload_bytes(a.payload).len() == payload_bytes(b.payload).len());
    lemma_signatures_framed_unique(bytes, d + p, a.signatures@, b.signatures@);
    let s = crate::encoding::sig_list_bytes(a.signatures@).len() as int;
    lemma_u32_framed_unique(bytes, d + p + s, kind_index(a.kind), kind_index(b.kind));
}

impl Message {
    /// The bytes that signatures on this message are computed over.
    pub fn serialize_payload(&self) -> (bytes: Vec<u8>)
        ensures
            bytes@ == payload_bytes(self.payload),
    {
        self.payload.serialize()
    }

    /// The message's bytes (see `message_bytes`).
    pub fn serialize(&self) -> (bytes: Vec<u8>)
        ensures
            bytes@ == message_bytes(*self),
    {
        let mut out: Vec<u8> = Vec::new();
        push_str(&mut out, self.header.destination.as_str());
        let payload = self.payload.serialize();
        crate::encoding::push_bytes(&mut out, payload.as_slice());
        push_signatures(&mut out, &self.signatures);
        let k: u32 = match self.kind {
            MessageKind::Vote => 0,
            MessageKind::Propose => 1,
        };
        push_u32(&mut out, k);
        assert(out@ =~= message_bytes(*self));
        out
    }

    /// Reads the message that `encoded` begins with, if it begins with one.
    pub fn decode(encoded: &[u8]) -> (r: Option<Message>)
        ensures
            r matches Some(m) ==> framed_at(encoded@, 0, message_bytes(m)),
            forall|c: Message| #[trigger] framed_at(encoded@, 0, message_bytes(c)) ==> (r matches Some(m) && m@
                == c@),
    {
        let blen = encoded.len();
        let dest = read_str(encoded, 0);
        proof {
            assert forall|c: Message| #[trigger] framed_at(encoded@, 0, message_bytes(c)) implies (
            dest matches Some((s, e)) && s@ == c.header.destination@) by {
                lemma_message_framing_parts(encoded@, c);
            }
        }
        let (destination, e0) = match dest {
            Some(x) => x,
            None => {
                return None;
            },
        };
        let payload = read_message_payload(encoded, e0);
        proof {
            assert forall|c: Message| #[trigger] framed_at(encoded@, 0, message_bytes(c)) implies (
            payload matches Some((p, e)) && p@ == c.payload@) by {
                lemma_message_framing_parts(encoded@, c);
                vstd::utf8::encode_utf8_decode_utf8(destination@);
            }
        }
        let (payload, e1) = match payload {
            Some(x) => x,
            None => {
                return None;
            },
        };
        let sigs = read_signatures(encoded, e1);
        proof {
            assert forall|c: Message| #[trigger] framed_at(encoded@, 0, message_bytes(c)) implies (
            sigs matches Some((v, e)) && v@ == c.signatures@) by {
                lemma_message_framing_parts(encoded@, c);
                vstd::utf8::encode_utf8_decode_utf8(destination@);
            }
        }
        let (signatures, e2) = match sigs {
            Some(x) => x,
            None => {
                return None;
            },
        };
        let kind = read_u32(encoded, e2);
        proof {
            assert forall|c: Message| #[trigger] framed_at(encoded@, 0, message_bytes(c)) implies kind == Some(
                kind_index(c.kind),
            ) by {
                lemma_message_framing_parts(encoded@, c);
                vstd::utf8::encode_utf8_decode_utf8(destination@);
            }
        }
        let kind = match kind {
            Some(0) => MessageKind::Vote,
            Some(1) => MessageKind::Propose,
            _ => {
                return None;
            },
        };
        let m = Message { header: MessageHeader { destination }, payload, signatures, kind };
        proof {
            lemma_message_framing_parts(encoded@, m);
        }
        Some(m)
    }

    /// The message that `encoded` begins with.
    pub fn deserialize(encoded: &Vec<u8>) -> (m: Message)
        requires
            exists|c: Message| #[trigger] framed_at(encoded@, 0, message_bytes(c)),
        ensures
            framed_at(encoded@, 0, message_bytes(m)),
            forall|c: Message| #[trigger] framed_at(encoded@, 0, message_bytes(c)) ==> m@ == c@,
    {
        let r = Message::decode(encoded.as_slice());
        let ghost c = choose|c: Message| #[trigger] framed_at(encoded@, 0, message_bytes(c));
        assert(framed_at(encoded@, 0, message_bytes(c)));
        match r {
            Some(m) => m,
            None => {
                assert(false);
                Message {
                    header: MessageHeader { destination: String::new() },
                    payload: MessagePayload { parent_hash: [0u8; 32], epoch: 0, payload_string: String::new() },
                    signatures: Vec::new(),
                    kind: MessageKind::Vote,
                }
            },
        }
    }
}

} // verus!
