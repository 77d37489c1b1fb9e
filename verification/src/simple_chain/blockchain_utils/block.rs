//! A block that collects votes; its hash is the hex encoding of its payload.
use vstd::prelude::*;
use vstd::utf8::encode_utf8;

verus! {

/// A block: time, epoch, hash, parent hash, payload, the voters' keys and a nonce.
#[derive(Debug)]
pub struct Block {
    pub timestamp: i64,
    pub epoch: i64,
    pub hash: String,
    pub parent_hash: String,
    pub payload: String,
    pub votes: Vec<String>,
    pub nonce: u64,
}

/// The lower-case hexadecimal digit of `n` (below 16).
pub open spec fn hex_digit(n: u8) -> char {
    if n < 10 {
        (48 + n) as char
    } else {
        (87 + n) as char
    }
}

/// Each byte as two lower-case hexadecimal digits, high nibble first.
pub open spec fn hex_encoding(bytes: Seq<u8>) -> Seq<char>
    decreases bytes.len(),
{
    if bytes.len() == 0 {
        Seq::empty()
    } else {
        hex_encoding(bytes.drop_last()) + seq![hex_digit(bytes.last() / 16), hex_digit(bytes.last() % 16)]
    }
}

/// Calls `hex::encode`. Trusted, as its source shows: each byte becomes two
/// lower-case hexadecimal digits, the high nibble first.
#[verifier::external_body]
fn hex_encode(data: &[u8]) -> (s: String)
    ensures
        s@ == hex_encoding(data@),
{
    hex::encode(data)
}

impl Block {
    /// A block with these fields, no votes, and as hash the hex encoding of
    /// the payload's UTF-8 bytes.
    pub fn new(timestamp: i64, epoch: i64, parent_hash: String, payload: &String, nonce: u64) -> (b: Block)
        ensures
            b.timestamp == timestamp,
            b.epoch == epoch,
            b.hash@ == hex_encoding(encode_utf8(payload@)),
            b.parent_hash == parent_hash,
            b.payload@ == payload@,
            b.votes@.len() == 0,
            b.nonce == nonce,
    {
        let payload_string = payload.clone();
        let hash = hex_encode(payload_string.as_str().as_bytes());
        Block { timestamp, epoch, hash, parent_hash, payload: payload_string, votes: Vec::new(), nonce }
    }
}

} // verus!
