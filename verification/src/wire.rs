//! Wire primitives: a self-describing item encoding in the CBOR style. Every
//! item starts with a head byte naming its kind, followed by the item's value
//! or length as eight big-endian bytes. Kinds: unsigned integer, byte string,
//! array, and map. Field tags, lengths, and numeric values all travel as
//! unsigned integers.

use vstd::prelude::*;
use vstd::slice::{slice_subrange, slice_to_vec};

verus! {

/// Head byte of an unsigned-integer item.
pub const HEAD_UINT: u8 = 0x1b;

/// Head byte of a byte-string item.
pub const HEAD_BYTES: u8 = 0x5b;

/// Head byte of an array item.
pub const HEAD_ARRAY: u8 = 0x9b;

/// Head byte of a map item.
pub const HEAD_MAP: u8 = 0xbb;

/// The eight big-endian bytes of `v`.
pub open spec fn be64(v: u64) -> Seq<u8> {
    seq![
        ((v >> 56) & 0xff) as u8,
        ((v >> 48) & 0xff) as u8,
        ((v >> 40) & 0xff) as u8,
        ((v >> 32) & 0xff) as u8,
        ((v >> 24) & 0xff) as u8,
        ((v >> 16) & 0xff) as u8,
        ((v >> 8) & 0xff) as u8,
        (v & 0xff) as u8,
    ]
}

/// The value read from eight big-endian bytes of `s` starting at `j`.
pub open spec fn be64_at(s: Seq<u8>, j: int) -> u64 {
    ((s[j] as u64) << 56) | ((s[j + 1] as u64) << 48) | ((s[j + 2] as u64) << 40) | ((s[j
        + 3] as u64) << 32) | ((s[j + 4] as u64) << 24) | ((s[j + 5] as u64) << 16) | ((s[j
        + 6] as u64) << 8) | (s[j + 7] as u64)
}

/// An item head: the head byte, then the value or length in big-endian form.
pub open spec fn enc_head(h: u8, v: u64) -> Seq<u8> {
    seq![h] + be64(v)
}

/// An unsigned-integer item carrying `v`.
pub open spec fn enc_uint(v: u64) -> Seq<u8> {
    enc_head(HEAD_UINT, v)
}

/// A byte-string item carrying `b`.
pub open spec fn enc_bytes(b: Seq<u8>) -> Seq<u8> {
    enc_head(HEAD_BYTES, b.len() as u64) + b
}

/// Reads an item head with head byte `h` at `i`; yields the carried value and
/// the position after the head.
pub open spec fn parse_head(s: Seq<u8>, i: int, h: u8) -> Option<(u64, int)> {
    if 0 <= i && i + 9 <= s.len() && s[i] == h {
        Some((be64_at(s, i + 1), i + 9))
    } else {
        None
    }
}

/// Reads an unsigned-integer item at `i`.
pub open spec fn parse_uint(s: Seq<u8>, i: int) -> Option<(u64, int)> {
    parse_head(s, i, HEAD_UINT)
}

/// Reads a byte-string item at `i`; yields the carried bytes and the position
/// after them.
pub open spec fn parse_bytes(s: Seq<u8>, i: int) -> Option<(Seq<u8>, int)> {
    match parse_head(s, i, HEAD_BYTES) {
        Some((n, j)) => if j + n <= s.len() {
            Some((s.subrange(j, j + n), j + n))
        } else {
            None
        },
        None => None,
    }
}

/// Reading an encoded head embedded in a larger sequence recovers the value
/// it was built from.
pub proof fn lemma_parse_head_of_enc(s: Seq<u8>, i: int, h: u8, v: u64)
    requires
        0 <= i,
        i + 9 <= s.len(),
        s.subrange(i, i + 9) == enc_head(h, v),
    ensures
        parse_head(s, i, h) == Some((v, i + 9)),
{
    let e = enc_head(h, v);
    assert forall|k: int| 0 <= k < 9 implies s[i + k] == e[k] by {
        assert(s.subrange(i, i + 9)[k] == s[i + k]);
    }
    assert(e[0] == h && e[1] == be64(v)[0] && e[2] == be64(v)[1] && e[3] == be64(v)[2] && e[4]
        == be64(v)[3] && e[5] == be64(v)[4] && e[6] == be64(v)[5] && e[7] == be64(v)[6] && e[8]
        == be64(v)[7]);
    assert(s[i + 0] == e[0] && s[i + 1] == e[1] && s[i + 2] == e[2] && s[i + 3] == e[3] && s[i + 4]
        == e[4] && s[i + 5] == e[5] && s[i + 6] == e[6] && s[i + 7] == e[7] && s[i + 8] == e[8]);
    assert(s[i] == h);
    let b0 = ((v >> 56) & 0xff) as u8;
    let b1 = ((v >> 48) & 0xff) as u8;
    let b2 = ((v >> 40) & 0xff) as u8;
    let b3 = ((v >> 32) & 0xff) as u8;
    let b4 = ((v >> 24) & 0xff) as u8;
    let b5 = ((v >> 16) & 0xff) as u8;
    let b6 = ((v >> 8) & 0xff) as u8;
    let b7 = (v & 0xff) as u8;
    assert(s[i + 1] == b0 && s[i + 2] == b1 && s[i + 3] == b2 && s[i + 4] == b3 && s[i + 5] == b4
        && s[i + 6] == b5 && s[i + 7] == b6 && s[i + 8] == b7);
    assert(((b0 as u64) << 56) | ((b1 as u64) << 48) | ((b2 as u64) << 40) | ((b3 as u64) << 32) | (
    (b4 as u64) << 24) | ((b5 as u64) << 16) | ((b6 as u64) << 8) | (b7 as u64) == v) by {
        assert((((((v >> 56) & 0xff) as u8) as u64) << 56) | (((((v >> 48) & 0xff) as u8) as u64)
            << 48) | (((((v >> 40) & 0xff) as u8) as u64) << 40) | (((((v >> 32)
            & 0xff) as u8) as u64) << 32) | (((((v >> 24) & 0xff) as u8) as u64) << 24) | (((((v
            >> 16) & 0xff) as u8) as u64) << 16) | (((((v >> 8) & 0xff) as u8) as u64) << 8) | (((v
            & 0xff) as u8) as u64) == v) by (bit_vector);
    }
}

/// Reading an encoded unsigned-integer item embedded in a larger sequence
/// recovers the value it was built from.
pub proof fn lemma_parse_uint_of_enc(s: Seq<u8>, i: int, v: u64)
    requires
        0 <= i,
        i + 9 <= s.len(),
        s.subrange(i, i + 9) == enc_uint(v),
    ensures
        parse_uint(s, i) == Some((v, i + 9)),
{
    lemma_parse_head_of_enc(s, i, HEAD_UINT, v);
}

/// Reading an encoded byte-string item embedded in a larger sequence recovers
/// the bytes it was built from.
pub proof fn lemma_parse_bytes_of_enc(s: Seq<u8>, i: int, b: Seq<u8>)
    requires
        0 <= i,
        b.len() <= u64::MAX,
        i + enc_bytes(b).len() <= s.len(),
        s.subrange(i, i + enc_bytes(b).len()) == enc_bytes(b),
    ensures
        parse_bytes(s, i) == Some((b, i + 9 + b.len())),
{
    let e = enc_bytes(b);
    let n = b.len() as u64;
    assert(e.len() == 9 + b.len());
    assert(s.subrange(i, i + 9) =~= enc_head(HEAD_BYTES, n)) by {
        assert forall|k: int| 0 <= k < 9 implies s.subrange(i, i + 9)[k] == enc_head(HEAD_BYTES, n)[k]
            by {
            assert(s.subrange(i, i + e.len() as int)[k] == e[k]);
        }
    }
    lemma_parse_head_of_enc(s, i, HEAD_BYTES, n);
    assert(s.subrange(i + 9, i + 9 + b.len()) =~= b) by {
        assert forall|k: int| 0 <= k < b.len() implies s.subrange(i + 9, i + 9 + b.len() as int)[k]
            == b[k] by {
            assert(s.subrange(i, i + e.len() as int)[9 + k] == e[9 + k]);
            assert(e[9 + k] == b[k]);
        }
    }
}

/// Appends an item head for head byte `h` carrying `v`.
pub fn encode_head(h: u8, v: u64, out: &mut Vec<u8>)
    ensures
        final(out)@ == old(out)@ + enc_head(h, v),
{
    out.push(h);
    out.push(((v >> 56) & 0xff) as u8);
    out.push(((v >> 48) & 0xff) as u8);
    out.push(((v >> 40) & 0xff) as u8);
    out.push(((v >> 32) & 0xff) as u8);
    out.push(((v >> 24) & 0xff) as u8);
    out.push(((v >> 16) & 0xff) as u8);
    out.push(((v >> 8) & 0xff) as u8);
    out.push((v & 0xff) as u8);
    proof {
        assert(out@ =~= old(out)@ + enc_head(h, v));
    }
}

/// Appends an unsigned-integer item carrying `v`.
pub fn encode_uint(v: u64, out: &mut Vec<u8>)
    ensures
        final(out)@ == old(out)@ + enc_uint(v),
{
    encode_head(HEAD_UINT, v, out);
}

/// Appends a byte-string item carrying `b`.
pub fn encode_bytes(b: &Vec<u8>, out: &mut Vec<u8>)
    ensures
        final(out)@ == old(out)@ + enc_bytes(b@),
{
    encode_head(HEAD_BYTES, b.len() as u64, out);
    let ghost mid = out@;
    let mut k: usize = 0;
    while k < b.len()
        invariant
            0 <= k <= b.len(),
            out@ == mid + b@.subrange(0, k as int),
        decreases b.len() - k,
    {
        out.push(b[k]);
        proof {
            assert(out@ =~= mid + b@.subrange(0, k + 1 as int));
        }
        k = k + 1;
    }
    proof {
        assert(b@.subrange(0, b@.len() as int) =~= b@);
        assert(out@ =~= old(out)@ + enc_bytes(b@));
    }
}

/// Reads an item head with head byte `h` at `pos`.
pub fn decode_head(bytes: &Vec<u8>, pos: usize, h: u8) -> (r: Option<(u64, usize)>)
    ensures
        match r {
            Some((v, p)) => parse_head(bytes@, pos as int, h) == Some((v, p as int)),
            None => parse_head(bytes@, pos as int, h) is None,
        },
{
    if pos < bytes.len() && bytes.len() - pos >= 9 && bytes[pos] == h {
        let v = ((bytes[pos + 1] as u64) << 56) | ((bytes[pos + 2] as u64) << 48) | ((bytes[pos
            + 3] as u64) << 40) | ((bytes[pos + 4] as u64) << 32) | ((bytes[pos + 5] as u64) << 24)
            | ((bytes[pos + 6] as u64) << 16) | ((bytes[pos + 7] as u64) << 8) | (bytes[pos
            + 8] as u64);
        Some((v, pos + 9))
    } else {
        None
    }
}

/// Reads an unsigned-integer item at `pos`.
pub fn decode_uint(bytes: &Vec<u8>, pos: usize) -> (r: Option<(u64, usize)>)
    ensures
        match r {
            Some((v, p)) => parse_uint(bytes@, pos as int) == Some((v, p as int)),
            None => parse_uint(bytes@, pos as int) is None,
        },
{
    decode_head(bytes, pos, HEAD_UINT)
}

/// Reads a byte-string item at `pos`, copying out the carried bytes.
pub fn decode_bytes(bytes: &Vec<u8>, pos: usize) -> (r: Option<(Vec<u8>, usize)>)
    ensures
        match r {
            Some((b, p)) => parse_bytes(bytes@, pos as int) == Some((b@, p as int)),
            None => parse_bytes(bytes@, pos as int) is None,
        },
{
    match decode_head(bytes, pos, HEAD_BYTES) {
        Some((n, j)) => {
            if n <= (bytes.len() - j) as u64 {
                let n_us = n as usize;
                let piece = slice_subrange(bytes.as_slice(), j, j + n_us);
                Some((slice_to_vec(piece), j + n_us))
            } else {
                None
            }
        },
        None => None,
    }
}

} // verus!
