//! Reading back the little-endian, length-prefixed framing of `encoding`:
//! each reader takes the bytes and a position, and either finds the framed
//! value there or reports that the bytes end too early or are not UTF-8.
use vstd::prelude::*;
use vstd::utf8::{decode_utf8, encode_utf8, valid_utf8};
use crate::crypto::Signature;
use crate::encoding::{enc_bool, le_u16, le_u32, le_u64, len_prefixed, sig_list_bytes, sigs_concat};

verus! {

/// Calls `String::from_utf8`. Trusted, as its documentation states: the
/// conversion succeeds exactly on valid UTF-8, and the string holds the
/// characters that the bytes encode.
#[verifier::external_body]
fn string_from_utf8(bytes: Vec<u8>) -> (s: Option<String>)
    ensures
        s is Some <==> valid_utf8(bytes@),
        s matches Some(t) ==> t@ == decode_utf8(bytes@),
{
    String::from_utf8(bytes).ok()
}

/// Distinct u32 values have distinct little-endian bytes.
pub proof fn lemma_le_u32_injective(x: u32, y: u32)
    requires
        le_u32(x) == le_u32(y),
    ensures
        x == y,
{
    assert(le_u32(x)[0] == le_u32(y)[0]);
    assert(le_u32(x)[1] == le_u32(y)[1]);
    assert(le_u32(x)[2] == le_u32(y)[2]);
    assert(le_u32(x)[3] == le_u32(y)[3]);
    assert(x == y) by (bit_vector)
        requires
            x as u8 == y as u8,
            (x >> 8u32) as u8 == (y >> 8u32) as u8,
            (x >> 16u32) as u8 == (y >> 16u32) as u8,
            (x >> 24u32) as u8 == (y >> 24u32) as u8,
    ;
}

/// Distinct u64 values have distinct little-endian bytes.
pub proof fn lemma_le_u64_injective(x: u64, y: u64)
    requires
        le_u64(x) == le_u64(y),
    ensures
        x == y,
{
    assert(le_u64(x)[0] == le_u64(y)[0]);
    assert(le_u64(x)[1] == le_u64(y)[1]);
    assert(le_u64(x)[2] == le_u64(y)[2]);
    assert(le_u64(x)[3] == le_u64(y)[3]);
    assert(le_u64(x)[4] == le_u64(y)[4]);
    assert(le_u64(x)[5] == le_u64(y)[5]);
    assert(le_u64(x)[6] == le_u64(y)[6]);
    assert(le_u64(x)[7] == le_u64(y)[7]);
    assert(x == y) by (bit_vector)
        requires
            x as u8 == y as u8,
            (x >> 8u64) as u8 == (y >> 8u64) as u8,
            (x >> 16u64) as u8 == (y >> 16u64) as u8,
            (x >> 24u64) as u8 == (y >> 24u64) as u8,
            (x >> 32u64) as u8 == (y >> 32u64) as u8,
            (x >> 40u64) as u8 == (y >> 40u64) as u8,
            (x >> 48u64) as u8 == (y >> 48u64) as u8,
            (x >> 56u64) as u8 == (y >> 56u64) as u8,
    ;
}

/// The bytes `bytes[pos..pos + n]` exist and are `piece`.
pub open spec fn framed_at(bytes: Seq<u8>, pos: int, piece: Seq<u8>) -> bool {
    0 <= pos && pos + piece.len() <= bytes.len() && bytes.subrange(pos, pos + piece.len()) == piece
}

/// Framing `a` then `b` at `pos` is framing `a` at `pos` and `b` right after it.
pub proof fn lemma_framed_concat(bytes: Seq<u8>, pos: int, a: Seq<u8>, b: Seq<u8>)
    ensures
        framed_at(bytes, pos, a + b) <==> (framed_at(bytes, pos, a) && framed_at(bytes, pos + a.len(), b)),
{
    if framed_at(bytes, pos, a + b) {
        let whole = bytes.subrange(pos, pos + a.len() + b.len());
        assert(whole == a + b);
        assert(bytes.subrange(pos, pos + a.len()) =~= whole.subrange(0, a.len() as int));
        assert((a + b).subrange(0, a.len() as int) =~= a);
        assert(bytes.subrange(pos + a.len(), pos + a.len() + b.len()) =~= whole.subrange(
            a.len() as int,
            (a.len() + b.len()) as int,
        ));
        assert((a + b).subrange(a.len() as int, (a.len() + b.len()) as int) =~= b);
    }
    if framed_at(bytes, pos, a) && framed_at(bytes, pos + a.len(), b) {
        assert(bytes.subrange(pos, pos + (a + b).len()) =~= bytes.subrange(pos, pos + a.len()) + bytes.subrange(
            pos + a.len(),
            pos + a.len() + b.len(),
        ));
    }
}

/// Reads the little-endian u16 at `pos`.
pub fn read_u16(bytes: &[u8], pos: usize) -> (r: Option<u16>)
    ensures
        r is Some <==> pos + 2 <= bytes@.len(),
        r matches Some(x) ==> framed_at(bytes@, pos as int, le_u16(x)),
        forall|y: u16| #[trigger] framed_at(bytes@, pos as int, le_u16(y)) ==> r == Some(y),
{
    if pos > bytes.len() || bytes.len() - pos < 2 {
        assert forall|y: u16| #[trigger] framed_at(bytes@, pos as int, le_u16(y)) implies false by {}
        return None;
    }
    let b0 = bytes[pos];
    let b1 = bytes[pos + 1];
    let x: u16 = (b0 as u16) | ((b1 as u16) << 8u16);
    assert(x as u8 == b0 && (x >> 8u16) as u8 == b1) by (bit_vector)
        requires
            x == (b0 as u16) | ((b1 as u16) << 8u16),
    ;
    assert(bytes@.subrange(pos as int, pos + 2) =~= le_u16(x));
    assert forall|y: u16| #[trigger] framed_at(bytes@, pos as int, le_u16(y)) implies Some(x) == Some(y) by {
        assert(le_u16(y)[0] == x as u8);
        assert(le_u16(y)[1] == (x >> 8u16) as u8);
        assert(x == y) by (bit_vector)
            requires
                x as u8 == y as u8,
                (x >> 8u16) as u8 == (y >> 8u16) as u8,
        ;
    }
    Some(x)
}

/// Reads the boolean byte at `pos`: 0 is false, 1 is true, any other byte
/// frames no boolean.
pub fn read_bool(bytes: &[u8], pos: usize) -> (r: Option<bool>)
    ensures
        r matches Some(b) ==> framed_at(bytes@, pos as int, enc_bool(b)),
        forall|b: bool| #[trigger] framed_at(bytes@, pos as int, enc_bool(b)) ==> r == Some(b),
{
    if pos >= bytes.len() {
        assert forall|b: bool| #[trigger] framed_at(bytes@, pos as int, enc_bool(b)) implies false by {}
        return None;
    }
    let x = bytes[pos];
    assert forall|b: bool| #[trigger] framed_at(bytes@, pos as int, enc_bool(b)) implies enc_bool(b)[0] == x by {
        assert(bytes@.subrange(pos as int, pos + 1)[0] == x);
    }
    if x == 0 {
        assert(bytes@.subrange(pos as int, pos + 1) =~= enc_bool(false));
        Some(false)
    } else if x == 1 {
        assert(bytes@.subrange(pos as int, pos + 1) =~= enc_bool(true));
        Some(true)
    } else {
        None
    }
}

/// Reads the little-endian u32 at `pos`.
pub fn read_u32(bytes: &[u8], pos: usize) -> (r: Option<u32>)
    ensures
        r is Some <==> pos + 4 <= bytes@.len(),
        r matches Some(x) ==> framed_at(bytes@, pos as int, le_u32(x)),
        forall|y: u32| #[trigger] framed_at(bytes@, pos as int, le_u32(y)) ==> r == Some(y),
{
    if pos > bytes.len() || bytes.len() - pos < 4 {
        assert forall|y: u32| #[trigger] framed_at(bytes@, pos as int, le_u32(y)) implies false by {}
        return None;
    }
    let b0 = bytes[pos];
    let b1 = bytes[pos + 1];
    let b2 = bytes[pos + 2];
    let b3 = bytes[pos + 3];
    let x: u32 = (b0 as u32) | ((b1 as u32) << 8u32) | ((b2 as u32) << 16u32) | ((b3 as u32) << 24u32);
    assert(x as u8 == b0 && (x >> 8u32) as u8 == b1 && (x >> 16u32) as u8 == b2 && (x >> 24u32) as u8 == b3)
        by (bit_vector)
        requires
            x == (b0 as u32) | ((b1 as u32) << 8u32) | ((b2 as u32) << 16u32) | ((b3 as u32) << 24u32),
    ;
    assert(bytes@.subrange(pos as int, pos + 4) =~= le_u32(x));
    assert forall|y: u32| #[trigger] framed_at(bytes@, pos as int, le_u32(y)) implies Some(x) == Some(y) by {
        lemma_le_u32_injective(x, y);
    }
    Some(x)
}

/// Reads the little-endian u64 at `pos`.
pub fn read_u64(bytes: &[u8], pos: usize) -> (r: Option<u64>)
    ensures
        r is Some <==> pos + 8 <= bytes@.len(),
        r matches Some(x) ==> framed_at(bytes@, pos as int, le_u64(x)),
        forall|y: u64| #[trigger] framed_at(bytes@, pos as int, le_u64(y)) ==> r == Some(y),
{
    if pos > bytes.len() || bytes.len() - pos < 8 {
        assert forall|y: u64| #[trigger] framed_at(bytes@, pos as int, le_u64(y)) implies false by {}
        return None;
    }
    let b0 = bytes[pos];
    let b1 = bytes[pos + 1];
    let b2 = bytes[pos + 2];
    let b3 = bytes[pos + 3];
    let b4 = bytes[pos + 4];
    let b5 = bytes[pos + 5];
    let b6 = bytes[pos + 6];
    let b7 = bytes[pos + 7];
    let x: u64 = (b0 as u64) | ((b1 as u64) << 8u64) | ((b2 as u64) << 16u64) | ((b3 as u64) << 24u64)
        | ((b4 as u64) << 32u64) | ((b5 as u64) << 40u64) | ((b6 as u64) << 48u64) | ((b7 as u64)
        << 56u64);
    assert(x as u8 == b0 && (x >> 8u64) as u8 == b1 && (x >> 16u64) as u8 == b2 && (x >> 24u64) as u8
        == b3 && (x >> 32u64) as u8 == b4 && (x >> 40u64) as u8 == b5 && (x >> 48u64) as u8 == b6 && (x
        >> 56u64) as u8 == b7) by (bit_vector)
        requires
            x == (b0 as u64) | ((b1 as u64) << 8u64) | ((b2 as u64) << 16u64) | ((b3 as u64) << 24u64)
                | ((b4 as u64) << 32u64) | ((b5 as u64) << 40u64) | ((b6 as u64) << 48u64) | ((
            b7 as u64) << 56u64),
    ;
    assert(bytes@.subrange(pos as int, pos + 8) =~= le_u64(x));
    assert forall|y: u64| #[trigger] framed_at(bytes@, pos as int, le_u64(y)) implies Some(x) == Some(y) by {
        lemma_le_u64_injective(x, y);
    }
    Some(x)
}

/// Reads the `N` bytes at `pos` as they are.
pub fn read_array<const N: usize>(bytes: &[u8], pos: usize) -> (r: Option<[u8; N]>)
    ensures
        r is Some <==> pos + N <= bytes@.len(),
        r matches Some(a) ==> framed_at(bytes@, pos as int, a@),
        forall|c: [u8; N]| #[trigger] framed_at(bytes@, pos as int, c@) ==> r == Some(c),
{
    broadcast use vstd::array::group_array_axioms;
    if pos > bytes.len() || bytes.len() - pos < N {
        assert forall|c: [u8; N]| #[trigger] framed_at(bytes@, pos as int, c@) implies false by {
            assert(c@.len() == N);
        }
        return None;
    }
    let blen = bytes.len();
    let mut a: [u8; N] = [0u8; N];
    let mut i: usize = 0;
    while i < N
        invariant
            i <= N,
            blen == bytes@.len(),
            pos + N <= blen,
            a@.len() == N,
            forall|j: int| 0 <= j < i ==> a@[j] == bytes@[pos + j],
        decreases N - i,
    {
        a[i] = bytes[pos + i];
        i = i + 1;
    }
    assert(bytes@.subrange(pos as int, pos + N) =~= a@);
    assert forall|c: [u8; N]| #[trigger] framed_at(bytes@, pos as int, c@) implies Some(a) == Some(c) by {
        assert forall|j: int| 0 <= j < N implies a[j] == c[j] by {
            assert(c@[j] == bytes@.subrange(pos as int, pos + N)[j]);
        }
        assert(a =~= c);
    }
    Some(a)
}

/// Copies `bytes[start..end]`.
pub fn copy_range(bytes: &[u8], start: usize, end: usize) -> (out: Vec<u8>)
    requires
        start <= end <= bytes@.len(),
    ensures
        out@ == bytes@.subrange(start as int, end as int),
{
    let mut out: Vec<u8> = Vec::new();
    let mut i: usize = start;
    while i < end
        invariant
            start <= i <= end <= bytes@.len(),
            out@ == bytes@.subrange(start as int, i as int),
        decreases end - i,
    {
        out.push(bytes[i]);
        assert(bytes@.subrange(start as int, i + 1) =~= bytes@.subrange(start as int, i as int).push(
            bytes@[i as int],
        ));
        i = i + 1;
    }
    out
}

/// Reads the byte string at `pos` that its length as a little-endian u64
/// precedes; gives the bytes and the position just after them.
pub fn read_len_prefixed(bytes: &[u8], pos: usize) -> (r: Option<(Vec<u8>, usize)>)
    ensures
        r matches Some((b, end)) ==> end == pos + len_prefixed(b@).len() && framed_at(
            bytes@,
            pos as int,
            len_prefixed(b@),
        ),
        forall|c: Seq<u8>| #[trigger] framed_at(bytes@, pos as int, len_prefixed(c)) ==> (r matches Some(
            (b, end),
        ) && b@ == c),
{
    let len_field = read_u64(bytes, pos);
    match len_field {
        None => {
            assert forall|c: Seq<u8>| #[trigger] framed_at(bytes@, pos as int, len_prefixed(c)) implies false by {}
            None
        },
        Some(n) => {
            let blen = bytes.len();
            assert(pos + 8 <= blen);
            let start = pos + 8;
            if n as u128 > (bytes.len() - start) as u128 {
                assert forall|c: Seq<u8>| #[trigger] framed_at(bytes@, pos as int, len_prefixed(c)) implies false by {
                    assert(bytes@.subrange(pos as int, pos + 8) =~= len_prefixed(c).subrange(0, 8));
                    assert(len_prefixed(c).subrange(0, 8) =~= le_u64(c.len() as u64));
                    assert(framed_at(bytes@, pos as int, le_u64(c.len() as u64)));
                }
                return None;
            }
            let end = start + n as usize;
            let b = copy_range(bytes, start, end);
            assert(bytes@.subrange(pos as int, end as int) =~= len_prefixed(b@));
            assert forall|c: Seq<u8>| #[trigger] framed_at(bytes@, pos as int, len_prefixed(c)) implies b@ == c by {
                assert(bytes@.subrange(pos as int, pos + 8) =~= len_prefixed(c).subrange(0, 8));
                assert(len_prefixed(c).subrange(0, 8) =~= le_u64(c.len() as u64));
                assert(framed_at(bytes@, pos as int, le_u64(c.len() as u64)));
                assert(c =~= bytes@.subrange(pos as int, pos + len_prefixed(c).len()).subrange(8, 8 + c.len() as int));
                assert(b@ =~= c);
            }
            Some((b, end))
        },
    }
}

/// Reads the string at `pos` whose UTF-8 bytes their length as a
/// little-endian u64 precedes; gives the string and the position after it.
pub fn read_str(bytes: &[u8], pos: usize) -> (r: Option<(String, usize)>)
    ensures
        r matches Some((s, end)) ==> end == pos + len_prefixed(encode_utf8(s@)).len() && framed_at(
            bytes@,
            pos as int,
            len_prefixed(encode_utf8(s@)),
        ),
        forall|c: Seq<char>| #[trigger] framed_at(bytes@, pos as int, len_prefixed(encode_utf8(c))) ==> (
        r matches Some((s, end)) && s@ == c),
{
    match read_len_prefixed(bytes, pos) {
        None => {
            assert forall|c: Seq<char>| #[trigger] framed_at(bytes@, pos as int, len_prefixed(encode_utf8(c)))
                implies false by {
                assert(framed_at(bytes@, pos as int, len_prefixed(encode_utf8(c))));
            }
            None
        },
        Some((b, end)) => {
            let ghost bv = b@;
            match string_from_utf8(b) {
                None => {
                    assert forall|c: Seq<char>| #[trigger] framed_at(
                        bytes@,
                        pos as int,
                        len_prefixed(encode_utf8(c)),
                    ) implies false by {
                        assert(framed_at(bytes@, pos as int, len_prefixed(encode_utf8(c))));
                        vstd::utf8::encode_utf8_valid_utf8(c);
                    }
                    None
                },
                Some(s) => {
                    proof {
                        vstd::utf8::decode_utf8_encode_utf8(bv);
                    }
                    assert forall|c: Seq<char>| #[trigger] framed_at(
                        bytes@,
                        pos as int,
                        len_prefixed(encode_utf8(c)),
                    ) implies s@ == c by {
                        assert(framed_at(bytes@, pos as int, len_prefixed(encode_utf8(c))));
                        vstd::utf8::encode_utf8_decode_utf8(c);
                    }
                    Some((s, end))
                },
            }
        },
    }
}

/// Every signature takes 64 bytes of the concatenation.
pub proof fn lemma_sigs_concat_len(s: Seq<Signature>)
    ensures
        sigs_concat(s).len() == 64 * s.len(),
    decreases s.len(),
{
    if s.len() > 0 {
        lemma_sigs_concat_len(s.drop_last());
    }
}

/// Lists of signatures of one length with the same concatenation are equal.
pub proof fn lemma_sigs_concat_injective(a: Seq<Signature>, b: Seq<Signature>)
    requires
        a.len() == b.len(),
        sigs_concat(a) == sigs_concat(b),
    ensures
        a == b,
    decreases a.len(),
{
    broadcast use vstd::array::group_array_axioms;
    if a.len() > 0 {
        lemma_sigs_concat_len(a.drop_last());
        lemma_sigs_concat_len(b.drop_last());
        let n = 64 * (a.len() - 1);
        assert(sigs_concat(a.drop_last()) =~= sigs_concat(a).subrange(0, n));
        assert(sigs_concat(b.drop_last()) =~= sigs_concat(b).subrange(0, n));
        assert(a.last().bytes@ =~= sigs_concat(a).subrange(n, n + 64));
        assert(b.last().bytes@ =~= sigs_concat(b).subrange(n, n + 64));
        lemma_sigs_concat_injective(a.drop_last(), b.drop_last());
        assert(a.last().bytes =~= b.last().bytes);
        assert(a =~= a.drop_last().push(a.last()));
        assert(b =~= b.drop_last().push(b.last()));
    }
}

/// Reads the list of signatures at `pos` (see `sig_list_bytes`); gives the
/// signatures and the position after them.
pub fn read_signatures(bytes: &[u8], pos: usize) -> (r: Option<(Vec<Signature>, usize)>)
    ensures
        r matches Some((v, end)) ==> end == pos + sig_list_bytes(v@).len() && framed_at(
            bytes@,
            pos as int,
            sig_list_bytes(v@),
        ),
        forall|s: Seq<Signature>| #[trigger] framed_at(bytes@, pos as int, sig_list_bytes(s)) ==> (
        r matches Some((v, end)) && v@ == s),
{
    let blen = bytes.len();
    let count = read_u64(bytes, pos);
    let n: u64 = match count {
        None => {
            assert forall|s: Seq<Signature>| #[trigger] framed_at(bytes@, pos as int, sig_list_bytes(s))
                implies false by {
                lemma_framed_concat(bytes@, pos as int, le_u64(s.len() as u64), sigs_concat(s));
            }
            return None;
        },
        Some(n) => n,
    };
    let p0 = pos + 8;
    if n as u128 * 64 > (blen - p0) as u128 {
        assert forall|s: Seq<Signature>| #[trigger] framed_at(bytes@, pos as int, sig_list_bytes(s))
            implies false by {
            lemma_framed_concat(bytes@, pos as int, le_u64(s.len() as u64), sigs_concat(s));
            lemma_sigs_concat_len(s);
            assert(s.len() as u64 == n);
        }
        return None;
    }
    let mut v: Vec<Signature> = Vec::new();
    let mut i: u64 = 0;
    while i < n
        invariant
            blen == bytes@.len(),
            p0 == pos + 8,
            p0 + 64 * n <= blen,
            i <= n,
            v@.len() == i,
            bytes@.subrange(p0 as int, p0 + 64 * i) == sigs_concat(v@),
        decreases n - i,
    {
        let at = p0 + 64 * (i as usize);
        let a: Option<[u8; 64]> = read_array(bytes, at);
        match a {
            Some(a) => {
                let ghost before = v@;
                v.push(Signature { bytes: a });
                proof {
                    assert(v@.drop_last() =~= before);
                    assert(bytes@.subrange(p0 as int, p0 + 64 * (i + 1)) =~= bytes@.subrange(
                        p0 as int,
                        p0 + 64 * i,
                    ) + bytes@.subrange(at as int, at + 64));
                }
            },
            None => {
                assert(false);
            },
        }
        i = i + 1;
    }
    let end = p0 + 64 * (n as usize);
    proof {
        lemma_sigs_concat_len(v@);
        lemma_framed_concat(bytes@, pos as int, le_u64(v@.len() as u64), sigs_concat(v@));
        assert forall|s: Seq<Signature>| #[trigger] framed_at(bytes@, pos as int, sig_list_bytes(s)) implies v@
            == s by {
            lemma_framed_concat(bytes@, pos as int, le_u64(s.len() as u64), sigs_concat(s));
            lemma_sigs_concat_len(s);
            assert(s.len() as u64 == n);
            lemma_sigs_concat_injective(v@, s);
        }
    }
    Some((v, end))
}

/// Two pieces of one length framed at one position are the same bytes.
pub proof fn lemma_framed_same(bytes: Seq<u8>, pos: int, a: Seq<u8>, b: Seq<u8>)
    requires
        a.len() == b.len(),
        framed_at(bytes, pos, a),
        framed_at(bytes, pos, b),
    ensures
        a == b,
{
}

/// The u32 framed at a position is determined by the bytes.
pub proof fn lemma_u32_framed_unique(bytes: Seq<u8>, pos: int, x: u32, y: u32)
    requires
        framed_at(bytes, pos, le_u32(x)),
        framed_at(bytes, pos, le_u32(y)),
    ensures
        x == y,
{
    lemma_framed_same(bytes, pos, le_u32(x), le_u32(y));
    lemma_le_u32_injective(x, y);
}

/// The u64 framed at a position is determined by the bytes.
pub proof fn lemma_u64_framed_unique(bytes: Seq<u8>, pos: int, x: u64, y: u64)
    requires
        framed_at(bytes, pos, le_u64(x)),
        framed_at(bytes, pos, le_u64(y)),
    ensures
        x == y,
{
    lemma_framed_same(bytes, pos, le_u64(x), le_u64(y));
    lemma_le_u64_injective(x, y);
}

/// Distinct u16 values have distinct little-endian bytes.
pub proof fn lemma_le_u16_injective(x: u16, y: u16)
    requires
        le_u16(x) == le_u16(y),
    ensures
        x == y,
{
    assert(le_u16(x)[0] == le_u16(y)[0]);
    assert(le_u16(x)[1] == le_u16(y)[1]);
    assert(x == y) by (bit_vector)
        requires
            x as u8 == y as u8,
            (x >> 8u16) as u8 == (y >> 8u16) as u8,
    ;
}

/// The byte string framed with its length at a position is determined by
/// the bytes (in any byte string whose length fits a u64).
pub proof fn lemma_len_prefixed_framed_unique(bytes: Seq<u8>, pos: int, a: Seq<u8>, b: Seq<u8>)
    requires
        bytes.len() <= u64::MAX,
        framed_at(bytes, pos, len_prefixed(a)),
        framed_at(bytes, pos, len_prefixed(b)),
    ensures
        a == b,
{
    lemma_framed_concat(bytes, pos, le_u64(a.len() as u64), a);
    lemma_framed_concat(bytes, pos, le_u64(b.len() as u64), b);
    lemma_u64_framed_unique(bytes, pos, a.len() as u64, b.len() as u64);
    lemma_framed_same(bytes, pos + 8, a, b);
}

/// The string framed at a position is determined by the bytes.
pub proof fn lemma_str_framed_unique(bytes: Seq<u8>, pos: int, a: Seq<char>, b: Seq<char>)
    requires
        bytes.len() <= u64::MAX,
        framed_at(bytes, pos, len_prefixed(encode_utf8(a))),
        framed_at(bytes, pos, len_prefixed(encode_utf8(b))),
    ensures
        a == b,
{
    lemma_len_prefixed_framed_unique(bytes, pos, encode_utf8(a), encode_utf8(b));
    vstd::utf8::encode_utf8_decode_utf8(a);
    vstd::utf8::encode_utf8_decode_utf8(b);
}

/// The list of signatures framed at a position is determined by the bytes.
pub proof fn lemma_signatures_framed_unique(bytes: Seq<u8>, pos: int, s: Seq<Signature>, t: Seq<Signature>)
    requires
        bytes.len() <= u64::MAX,
        framed_at(bytes, pos, sig_list_bytes(s)),
        framed_at(bytes, pos, sig_list_bytes(t)),
    ensures
        s == t,
{
    lemma_framed_concat(bytes, pos, le_u64(s.len() as u64), sigs_concat(s));
    lemma_framed_concat(bytes, pos, le_u64(t.len() as u64), sigs_concat(t));
    lemma_sigs_concat_len(s);
    lemma_sigs_concat_len(t);
    lemma_u64_framed_unique(bytes, pos, s.len() as u64, t.len() as u64);
    lemma_framed_same(bytes, pos + 8, sigs_concat(s), sigs_concat(t));
    lemma_sigs_concat_injective(s, t);
}

} // verus!
