//! Primitives of the canonical binary format: little-endian fixed-width
//! integers, one-byte booleans, raw 32-byte hashes, and length-prefixed
//! byte strings. Every composite wire format of the library is built from
//! these, and every encoder is paired with a decoder proved to read back
//! exactly what was written.

use vstd::prelude::*;
use vstd::bytes::{
    lemma_auto_spec_u32_to_from_le_bytes, lemma_auto_spec_u64_to_from_le_bytes,
    spec_u32_from_le_bytes, spec_u32_to_le_bytes, spec_u64_from_le_bytes, spec_u64_to_le_bytes,
    u32_from_le_bytes, u32_to_le_bytes, u64_from_le_bytes, u64_to_le_bytes,
};
use vstd::slice::slice_subrange;

verus! {

/// One byte: 1 for true, 0 for false.
pub open spec fn enc_bool(b: bool) -> Seq<u8> {
    seq![if b { 1u8 } else { 0u8 }]
}

/// Four little-endian bytes.
pub open spec fn enc_u32(x: u32) -> Seq<u8> {
    spec_u32_to_le_bytes(x)
}

/// Eight little-endian bytes.
pub open spec fn enc_u64(x: u64) -> Seq<u8> {
    spec_u64_to_le_bytes(x)
}

/// Eight little-endian bytes of the two's-complement value.
pub open spec fn enc_i64(x: i64) -> Seq<u8> {
    spec_u64_to_le_bytes(x as u64)
}

/// A byte string with its length ahead of it as a `u64`.
pub open spec fn enc_bytes(b: Seq<u8>) -> Seq<u8> {
    enc_u64(b.len() as u64) + b
}

/// Reads one byte as a boolean; any nonzero byte reads as true.
pub open spec fn dec_bool(s: Seq<u8>, pos: int) -> Option<(bool, int)> {
    if 0 <= pos && pos + 1 <= s.len() {
        Some((s[pos] != 0u8, pos + 1))
    } else {
        None
    }
}

/// Reads four little-endian bytes.
pub open spec fn dec_u32(s: Seq<u8>, pos: int) -> Option<(u32, int)> {
    if 0 <= pos && pos + 4 <= s.len() {
        Some((spec_u32_from_le_bytes(s.subrange(pos, pos + 4)), pos + 4))
    } else {
        None
    }
}

/// Reads eight little-endian bytes.
pub open spec fn dec_u64(s: Seq<u8>, pos: int) -> Option<(u64, int)> {
    if 0 <= pos && pos + 8 <= s.len() {
        Some((spec_u64_from_le_bytes(s.subrange(pos, pos + 8)), pos + 8))
    } else {
        None
    }
}

/// Reads eight little-endian bytes as a two's-complement value.
pub open spec fn dec_i64(s: Seq<u8>, pos: int) -> Option<(i64, int)> {
    if 0 <= pos && pos + 8 <= s.len() {
        Some((spec_u64_from_le_bytes(s.subrange(pos, pos + 8)) as i64, pos + 8))
    } else {
        None
    }
}

/// Reads 32 raw bytes.
pub open spec fn dec_hash32(s: Seq<u8>, pos: int) -> Option<(Seq<u8>, int)> {
    if 0 <= pos && pos + 32 <= s.len() {
        Some((s.subrange(pos, pos + 32), pos + 32))
    } else {
        None
    }
}

/// Reads a length-prefixed byte string. Fails when the length does not
/// fit a machine word or runs past the end.
pub open spec fn dec_bytes(s: Seq<u8>, pos: int) -> Option<(Seq<u8>, int)> {
    match dec_u64(s, pos) {
        Some((n, p)) => if n <= usize::MAX && p + n <= s.len() {
            Some((s.subrange(p, p + n), p + n))
        } else {
            None
        },
        None => None,
    }
}

/// Appends raw bytes.
pub fn w_raw(out: &mut Vec<u8>, b: &[u8])
    ensures
        final(out)@ == old(out)@ + b@,
{
    let n = b.len();
    let mut i: usize = 0;
    while i < n
        invariant
            n == b@.len(),
            0 <= i <= n,
            out@ =~= old(out)@ + b@.subrange(0, i as int),
        decreases n - i,
    {
        out.push(b[i]);
        proof {
            assert(out@ =~= old(out)@ + b@.subrange(0, i + 1));
        }
        i = i + 1;
    }
    proof {
        assert(out@ =~= old(out)@ + b@);
    }
}

/// Appends a boolean as one byte.
pub fn w_bool(out: &mut Vec<u8>, b: bool)
    ensures
        final(out)@ == old(out)@ + enc_bool(b),
{
    out.push(if b { 1u8 } else { 0u8 });
    proof {
        assert(out@ =~= old(out)@ + enc_bool(b));
    }
}

/// Appends a `u32` in little-endian order.
pub fn w_u32(out: &mut Vec<u8>, x: u32)
    ensures
        final(out)@ == old(out)@ + enc_u32(x),
{
    let bs = u32_to_le_bytes(x);
    w_raw(out, bs.as_slice());
}

/// Appends a `u64` in little-endian order.
pub fn w_u64(out: &mut Vec<u8>, x: u64)
    ensures
        final(out)@ == old(out)@ + enc_u64(x),
{
    let bs = u64_to_le_bytes(x);
    w_raw(out, bs.as_slice());
}

/// Appends an `i64` as its two's-complement bytes.
pub fn w_i64(out: &mut Vec<u8>, x: i64)
    ensures
        final(out)@ == old(out)@ + enc_i64(x),
{
    let u = #[verifier::truncate] (x as u64);
    w_u64(out, u);
}

/// Appends a length-prefixed byte string.
pub fn w_bytes(out: &mut Vec<u8>, b: &[u8])
    ensures
        final(out)@ == old(out)@ + enc_bytes(b@),
{
    w_u64(out, b.len() as u64);
    w_raw(out, b);
    proof {
        assert(out@ =~= old(out)@ + enc_bytes(b@));
    }
}

/// Reads one byte as a boolean.
pub fn r_bool(s: &[u8], pos: usize) -> (r: Option<(bool, usize)>)
    ensures
        match r {
            Some((v, p)) => dec_bool(s@, pos as int) == Some((v, p as int)) && pos < p <= s@.len(),
            None => dec_bool(s@, pos as int) is None,
        },
{
    if pos < s.len() {
        Some((s[pos] != 0, pos + 1))
    } else {
        None
    }
}

/// Reads a little-endian `u32`.
pub fn r_u32(s: &[u8], pos: usize) -> (r: Option<(u32, usize)>)
    ensures
        match r {
            Some((v, p)) => dec_u32(s@, pos as int) == Some((v, p as int)) && pos < p <= s@.len(),
            None => dec_u32(s@, pos as int) is None,
        },
{
    if pos <= s.len() && s.len() - pos >= 4 {
        let sub = slice_subrange(s, pos, pos + 4);
        let v = u32_from_le_bytes(sub);
        Some((v, pos + 4))
    } else {
        None
    }
}

/// Reads a little-endian `u64`.
pub fn r_u64(s: &[u8], pos: usize) -> (r: Option<(u64, usize)>)
    ensures
        match r {
            Some((v, p)) => dec_u64(s@, pos as int) == Some((v, p as int)) && pos < p <= s@.len(),
            None => dec_u64(s@, pos as int) is None,
        },
{
    if pos <= s.len() && s.len() - pos >= 8 {
        let sub = slice_subrange(s, pos, pos + 8);
        let v = u64_from_le_bytes(sub);
        Some((v, pos + 8))
    } else {
        None
    }
}

/// Reads a two's-complement `i64`.
pub fn r_i64(s: &[u8], pos: usize) -> (r: Option<(i64, usize)>)
    ensures
        match r {
            Some((v, p)) => dec_i64(s@, pos as int) == Some((v, p as int)) && pos < p <= s@.len(),
            None => dec_i64(s@, pos as int) is None,
        },
{
    match r_u64(s, pos) {
        Some((v, p)) => Some((#[verifier::truncate] (v as i64), p)),
        None => None,
    }
}

/// Reads 32 raw bytes into a hash.
pub fn r_hash32(s: &[u8], pos: usize) -> (r: Option<([u8; 32], usize)>)
    ensures
        match r {
            Some((v, p)) => dec_hash32(s@, pos as int) == Some((v@, p as int)) && pos < p
                <= s@.len(),
            None => dec_hash32(s@, pos as int) is None,
        },
{
    if pos <= s.len() && s.len() - pos >= 32 {
        let h = crate::bytesutil::read_hash32(s, pos);
        Some((h, pos + 32))
    } else {
        None
    }
}

/// Reads a length-prefixed byte string.
pub fn r_bytes(s: &[u8], pos: usize) -> (r: Option<(Vec<u8>, usize)>)
    ensures
        match r {
            Some((v, p)) => dec_bytes(s@, pos as int) == Some((v@, p as int)) && pos < p
                <= s@.len(),
            None => dec_bytes(s@, pos as int) is None,
        },
{
    match r_u64(s, pos) {
        Some((n, p)) => {
            if n <= usize::MAX as u64 && (n as usize) <= s.len() - p && p <= s.len() {
                let sub = slice_subrange(s, p, p + (n as usize));
                let v = crate::bytesutil::bytes_to_vec(sub);
                Some((v, p + (n as usize)))
            } else {
                None
            }
        },
        None => None,
    }
}

/// Reading eight little-endian bytes back gives the written `u64`.
pub proof fn lemma_u64_round_trip()
    ensures
        forall|x: u64| #![all_triggers] spec_u64_from_le_bytes(spec_u64_to_le_bytes(x)) == x,
        forall|x: u64| #![all_triggers] spec_u64_to_le_bytes(x).len() == 8,
        forall|x: u32| #![all_triggers] spec_u32_from_le_bytes(spec_u32_to_le_bytes(x)) == x,
        forall|x: u32| #![all_triggers] spec_u32_to_le_bytes(x).len() == 4,
{
    lemma_auto_spec_u64_to_from_le_bytes();
    lemma_auto_spec_u32_to_from_le_bytes();
    assert forall|x: u32| #![all_triggers] spec_u32_from_le_bytes(spec_u32_to_le_bytes(x)) == x
        && spec_u32_to_le_bytes(x).len() == 4 by {
        assert(spec_u32_to_le_bytes(x).len() == 4);
    };
}

/// Reading an `i64` back through its unsigned bytes gives the value.
pub proof fn lemma_i64_round_trip(x: i64)
    ensures
        (x as u64) as i64 == x,
{
    assert(((x as u64) as i64) == x) by (bit_vector);
}

/// Decoding at the start of an encoded `u64` embedded in a larger string
/// yields the value and steps past it.
pub proof fn lemma_dec_u64_of_enc(s: Seq<u8>, pos: int, x: u64)
    requires
        0 <= pos,
        pos + 8 <= s.len(),
        s.subrange(pos, pos + 8) == enc_u64(x),
    ensures
        dec_u64(s, pos) == Some((x, pos + 8)),
{
    lemma_u64_round_trip();
}

/// Decoding at the start of an encoded `u32` embedded in a larger string
/// yields the value and steps past it.
pub proof fn lemma_dec_u32_of_enc(s: Seq<u8>, pos: int, x: u32)
    requires
        0 <= pos,
        pos + 4 <= s.len(),
        s.subrange(pos, pos + 4) == enc_u32(x),
    ensures
        dec_u32(s, pos) == Some((x, pos + 4)),
{
    lemma_u64_round_trip();
}

/// Decoding at the start of an encoded byte string embedded in a larger
/// string yields the bytes and steps past them.
pub proof fn lemma_dec_bytes_of_enc(s: Seq<u8>, pos: int, b: Seq<u8>)
    requires
        0 <= pos,
        b.len() <= usize::MAX,
        pos + enc_bytes(b).len() <= s.len(),
        s.subrange(pos, pos + enc_bytes(b).len()) == enc_bytes(b),
    ensures
        dec_bytes(s, pos) == Some((b, pos + enc_bytes(b).len())),
{
    lemma_u64_round_trip();
    let n = b.len() as u64;
    let e = enc_bytes(b);
    assert(e.len() == 8 + b.len());
    assert(s.subrange(pos, pos + 8) =~= e.subrange(0, 8));
    assert(e.subrange(0, 8) =~= enc_u64(n));
    lemma_dec_u64_of_enc(s, pos, n);
    assert(s.subrange(pos + 8, pos + 8 + n) =~= e.subrange(8, 8 + n));
    assert(e.subrange(8, 8 + n) =~= b);
}

} // verus!
