//! Little-endian, length-prefixed byte framing used for the bytes that are
//! hashed and signed.
use vstd::prelude::*;
use crate::crypto::Signature;

verus! {

/// The eight little-endian bytes of `x`.
pub open spec fn le_u64(x: u64) -> Seq<u8> {
    seq![
        x as u8,
        (x >> 8u64) as u8,
        (x >> 16u64) as u8,
        (x >> 24u64) as u8,
        (x >> 32u64) as u8,
        (x >> 40u64) as u8,
        (x >> 48u64) as u8,
        (x >> 56u64) as u8,
    ]
}

/// The four little-endian bytes of `x`.
pub open spec fn le_u32(x: u32) -> Seq<u8> {
    seq![x as u8, (x >> 8u32) as u8, (x >> 16u32) as u8, (x >> 24u32) as u8]
}

/// The two little-endian bytes of `x`.
pub open spec fn le_u16(x: u16) -> Seq<u8> {
    seq![x as u8, (x >> 8u16) as u8]
}

/// A byte string preceded by its length as a little-endian u64.
pub open spec fn len_prefixed(b: Seq<u8>) -> Seq<u8> {
    le_u64(b.len() as u64) + b
}

/// One byte for a boolean.
pub open spec fn enc_bool(b: bool) -> Seq<u8> {
    seq![if b { 1u8 } else { 0u8 }]
}

/// Appends the little-endian bytes of `x`.
pub fn push_u64(out: &mut Vec<u8>, x: u64)
    ensures
        final(out)@ == old(out)@ + le_u64(x),
{
    out.push(x as u8);
    out.push((x >> 8u64) as u8);
    out.push((x >> 16u64) as u8);
    out.push((x >> 24u64) as u8);
    out.push((x >> 32u64) as u8);
    out.push((x >> 40u64) as u8);
    out.push((x >> 48u64) as u8);
    out.push((x >> 56u64) as u8);
    assert(out@ =~= old(out)@ + le_u64(x));
}

/// Appends the little-endian bytes of `x`.
pub fn push_u32(out: &mut Vec<u8>, x: u32)
    ensures
        final(out)@ == old(out)@ + le_u32(x),
{
    out.push(x as u8);
    out.push((x >> 8u32) as u8);
    out.push((x >> 16u32) as u8);
    out.push((x >> 24u32) as u8);
    assert(out@ =~= old(out)@ + le_u32(x));
}

/// Appends the little-endian bytes of `x`.
pub fn push_u16(out: &mut Vec<u8>, x: u16)
    ensures
        final(out)@ == old(out)@ + le_u16(x),
{
    out.push(x as u8);
    out.push((x >> 8u16) as u8);
    assert(out@ =~= old(out)@ + le_u16(x));
}

/// Appends one byte for a boolean.
pub fn push_bool(out: &mut Vec<u8>, b: bool)
    ensures
        final(out)@ == old(out)@ + enc_bool(b),
{
    if b {
        out.push(1u8);
    } else {
        out.push(0u8);
    }
    assert(out@ =~= old(out)@ + enc_bool(b));
}

/// Appends `bytes` as they are.
pub fn push_bytes(out: &mut Vec<u8>, bytes: &[u8])
    ensures
        final(out)@ == old(out)@ + bytes@,
{
    let mut i: usize = 0;
    while i < bytes.len()
        invariant
            i <= bytes@.len(),
            out@ == old(out)@ + bytes@.take(i as int),
        decreases bytes@.len() - i,
    {
        out.push(bytes[i]);
        assert(bytes@.take(i + 1) =~= bytes@.take(i as int).push(bytes@[i as int]));
        i = i + 1;
    }
    assert(bytes@.take(i as int) =~= bytes@);
}

/// Appends `bytes` preceded by their length.
pub fn push_len_prefixed(out: &mut Vec<u8>, bytes: &[u8])
    ensures
        final(out)@ == old(out)@ + len_prefixed(bytes@),
{
    push_u64(out, bytes.len() as u64);
    push_bytes(out, bytes);
    assert(out@ =~= old(out)@ + len_prefixed(bytes@));
}

/// The 64-byte signatures one after the other.
pub open spec fn sigs_concat(s: Seq<Signature>) -> Seq<u8>
    decreases s.len(),
{
    if s.len() == 0 {
        Seq::empty()
    } else {
        sigs_concat(s.drop_last()) + s.last().bytes@
    }
}

/// A list of signatures: their number as a little-endian u64, then each
/// signature's 64 bytes.
pub open spec fn sig_list_bytes(s: Seq<Signature>) -> Seq<u8> {
    le_u64(s.len() as u64) + sigs_concat(s)
}

/// Appends a list of signatures (see `sig_list_bytes`).
pub fn push_signatures(out: &mut Vec<u8>, sigs: &Vec<Signature>)
    ensures
        final(out)@ == old(out)@ + sig_list_bytes(sigs@),
{
    push_u64(out, sigs.len() as u64);
    let ghost start = out@;
    let mut i: usize = 0;
    while i < sigs.len()
        invariant
            i <= sigs@.len(),
            out@ == start + sigs_concat(sigs@.take(i as int)),
        decreases sigs@.len() - i,
    {
        push_bytes(out, sigs[i].bytes.as_slice());
        proof {
            assert(sigs@.take(i + 1).drop_last() =~= sigs@.take(i as int));
            assert(sigs@.take(i + 1).last() == sigs@[i as int]);
            assert(out@ =~= start + sigs_concat(sigs@.take(i + 1)));
        }
        i = i + 1;
    }
    assert(sigs@.take(i as int) =~= sigs@);
    assert(out@ =~= old(out)@ + sig_list_bytes(sigs@));
}

/// Appends the UTF-8 bytes of `s` preceded by their length.
pub fn push_str(out: &mut Vec<u8>, s: &str)
    ensures
        final(out)@ == old(out)@ + len_prefixed(vstd::utf8::encode_utf8(s@)),
{
    push_len_prefixed(out, s.as_bytes());
}

} // verus!
