//! Decimal and hexadecimal text: formatting counters for events and
//! parsing the height argument of a `block/<height>` query.

use vstd::prelude::*;
use crate::hashing::spec_hex_char;

verus! {

/// Relies on `String::push`: appends one character at the end.
#[verifier::external_body]
pub fn string_push_char(s: &mut String, c: char)
    ensures
        final(s)@ == old(s)@ + seq![c],
{
    s.push(c);
}

/// The character for a value below 16, as a lowercase digit.
pub fn char_of_nibble(n: u8) -> (r: char)
    requires
        n < 16,
    ensures
        r == spec_hex_char(n),
{
    if n == 0 {
        '0'
    } else if n == 1 {
        '1'
    } else if n == 2 {
        '2'
    } else if n == 3 {
        '3'
    } else if n == 4 {
        '4'
    } else if n == 5 {
        '5'
    } else if n == 6 {
        '6'
    } else if n == 7 {
        '7'
    } else if n == 8 {
        '8'
    } else if n == 9 {
        '9'
    } else if n == 10 {
        'a'
    } else if n == 11 {
        'b'
    } else if n == 12 {
        'c'
    } else if n == 13 {
        'd'
    } else if n == 14 {
        'e'
    } else {
        'f'
    }
}

/// The decimal digit characters of `n`, most significant first, with no
/// leading zeros (`0` is written as one digit).
pub open spec fn spec_dec_digits(n: u64) -> Seq<char>
    decreases n,
{
    if n < 10 {
        seq![spec_hex_char(n as u8)]
    } else {
        spec_dec_digits(n / 10).push(spec_hex_char((n % 10) as u8))
    }
}

/// The digit characters of `ds` read back to front.
spec fn spec_rev_digit_chars(ds: Seq<u8>) -> Seq<char> {
    Seq::new(ds.len(), |i: int| spec_hex_char(ds[ds.len() - 1 - i]))
}

/// The digits of `x` still owed once the digits of `ds` (gathered least
/// significant first) have been peeled off, leaving `n`.
spec fn spec_dec_partial(n: u64, ds: Seq<u8>) -> Seq<char> {
    if ds.len() == 0 {
        spec_dec_digits(n)
    } else if n > 0 {
        spec_dec_digits(n) + spec_rev_digit_chars(ds)
    } else {
        spec_rev_digit_chars(ds)
    }
}

/// Writes `x` in decimal.
pub fn u64_to_dec_string(x: u64) -> (r: String)
    ensures
        r@ == spec_dec_digits(x),
{
    let mut digits: Vec<u8> = Vec::new();
    let mut n = x;
    if n == 0 {
        digits.push(0);
        proof {
            assert(spec_rev_digit_chars(digits@) =~= spec_dec_digits(0));
        }
    }
    while n > 0
        invariant
            spec_dec_digits(x) =~= spec_dec_partial(n, digits@),
            n == 0 ==> digits@.len() > 0,
            forall|i: int| 0 <= i < digits@.len() ==> digits@[i] < 10,
        decreases n,
    {
        let ghost prev = digits@;
        let d = #[verifier::truncate] ((n % 10) as u8);
        digits.push(d);
        proof {
            assert(digits@.drop_last() =~= prev);
            assert(spec_rev_digit_chars(digits@) =~= seq![spec_hex_char((n % 10) as u8)]
                + spec_rev_digit_chars(prev));
            if n >= 10 {
                assert(spec_dec_digits(n) =~= spec_dec_digits(n / 10).push(
                    spec_hex_char((n % 10) as u8),
                ));
                assert(spec_dec_digits(n / 10) + spec_rev_digit_chars(digits@)
                    =~= spec_dec_digits(n) + spec_rev_digit_chars(prev));
            } else {
                assert(spec_dec_digits(n) =~= seq![spec_hex_char((n % 10) as u8)]);
                assert(spec_rev_digit_chars(digits@) =~= spec_dec_digits(n)
                    + spec_rev_digit_chars(prev));
            }
            if prev.len() == 0 {
                assert(spec_dec_partial(n, prev) =~= spec_dec_digits(n));
            }
        }
        n = n / 10;
    }
    proof {
        assert(digits@.len() > 0);
        assert(spec_dec_digits(x) =~= spec_rev_digit_chars(digits@));
    }
    let mut s = String::new();
    let count = digits.len();
    let mut i: usize = 0;
    while i < count
        invariant
            count == digits@.len(),
            0 <= i <= count,
            forall|j: int| 0 <= j < count ==> digits@[j] < 10,
            s@ =~= spec_rev_digit_chars(digits@).subrange(0, i as int),
        decreases count - i,
    {
        let c = char_of_nibble(digits[count - 1 - i]);
        string_push_char(&mut s, c);
        proof {
            assert(s@ =~= spec_rev_digit_chars(digits@).subrange(0, i + 1));
        }
        i = i + 1;
    }
    proof {
        assert(s@ =~= spec_rev_digit_chars(digits@));
    }
    s
}

/// The eight hex digit characters of `x`, most significant nibble first.
pub open spec fn spec_hex8(x: u32) -> Seq<char> {
    seq![
        spec_hex_char(((x >> 28) & 0xf) as u8),
        spec_hex_char(((x >> 24) & 0xf) as u8),
        spec_hex_char(((x >> 20) & 0xf) as u8),
        spec_hex_char(((x >> 16) & 0xf) as u8),
        spec_hex_char(((x >> 12) & 0xf) as u8),
        spec_hex_char(((x >> 8) & 0xf) as u8),
        spec_hex_char(((x >> 4) & 0xf) as u8),
        spec_hex_char((x & 0xf) as u8),
    ]
}

/// Writes `x` as exactly eight lowercase hex digits.
pub fn u32_to_hex8_string(x: u32) -> (r: String)
    ensures
        r@ == spec_hex8(x),
{
    let mut s = String::new();
    proof {
        assert((x >> 28) & 0xf < 16 && (x >> 24) & 0xf < 16 && (x >> 20) & 0xf < 16 && (x >> 16)
            & 0xf < 16 && (x >> 12) & 0xf < 16 && (x >> 8) & 0xf < 16 && (x >> 4) & 0xf < 16 && x
            & 0xf < 16) by (bit_vector);
    }
    string_push_char(&mut s, char_of_nibble(#[verifier::truncate] (((x >> 28) & 0xf) as u8)));
    string_push_char(&mut s, char_of_nibble(#[verifier::truncate] (((x >> 24) & 0xf) as u8)));
    string_push_char(&mut s, char_of_nibble(#[verifier::truncate] (((x >> 20) & 0xf) as u8)));
    string_push_char(&mut s, char_of_nibble(#[verifier::truncate] (((x >> 16) & 0xf) as u8)));
    string_push_char(&mut s, char_of_nibble(#[verifier::truncate] (((x >> 12) & 0xf) as u8)));
    string_push_char(&mut s, char_of_nibble(#[verifier::truncate] (((x >> 8) & 0xf) as u8)));
    string_push_char(&mut s, char_of_nibble(#[verifier::truncate] (((x >> 4) & 0xf) as u8)));
    string_push_char(&mut s, char_of_nibble(#[verifier::truncate] ((x & 0xf) as u8)));
    proof {
        assert(s@ =~= spec_hex8(x));
    }
    s
}

/// The ASCII byte of the lowercase hex digit for a value below 16.
pub open spec fn spec_hex_digit_byte(n: u8) -> u8 {
    if n < 10 {
        (0x30 + n) as u8
    } else {
        (0x57 + n) as u8
    }
}

/// The decimal digit bytes of `n`, most significant first, with no
/// leading zeros.
pub open spec fn spec_dec_digit_bytes(n: u64) -> Seq<u8>
    decreases n,
{
    if n < 10 {
        seq![spec_hex_digit_byte(n as u8)]
    } else {
        spec_dec_digit_bytes(n / 10).push(spec_hex_digit_byte((n % 10) as u8))
    }
}

/// The digit bytes of `ds` read back to front.
spec fn spec_rev_digit_bytes(ds: Seq<u8>) -> Seq<u8> {
    Seq::new(ds.len(), |i: int| spec_hex_digit_byte(ds[ds.len() - 1 - i]))
}

/// The decimal bytes of `x` still owed once `ds` digits were peeled
/// off, leaving `n`.
spec fn spec_dec_bytes_partial(n: u64, ds: Seq<u8>) -> Seq<u8> {
    if ds.len() == 0 {
        spec_dec_digit_bytes(n)
    } else if n > 0 {
        spec_dec_digit_bytes(n) + spec_rev_digit_bytes(ds)
    } else {
        spec_rev_digit_bytes(ds)
    }
}

/// Writes `x` in decimal ASCII bytes.
pub fn u64_to_dec_bytes(x: u64) -> (r: Vec<u8>)
    ensures
        r@ == spec_dec_digit_bytes(x),
{
    let mut digits: Vec<u8> = Vec::new();
    let mut n = x;
    if n == 0 {
        digits.push(0);
        proof {
            assert(spec_rev_digit_bytes(digits@) =~= spec_dec_digit_bytes(0));
        }
    }
    while n > 0
        invariant
            spec_dec_digit_bytes(x) =~= spec_dec_bytes_partial(n, digits@),
            n == 0 ==> digits@.len() > 0,
            forall|i: int| 0 <= i < digits@.len() ==> digits@[i] < 10,
        decreases n,
    {
        let ghost prev = digits@;
        let d = #[verifier::truncate] ((n % 10) as u8);
        digits.push(d);
        proof {
            assert(digits@.drop_last() =~= prev);
            assert(spec_rev_digit_bytes(digits@) =~= seq![spec_hex_digit_byte((n % 10) as u8)]
                + spec_rev_digit_bytes(prev));
            if n >= 10 {
                assert(spec_dec_digit_bytes(n) =~= spec_dec_digit_bytes(n / 10).push(
                    spec_hex_digit_byte((n % 10) as u8),
                ));
                assert(spec_dec_digit_bytes(n / 10) + spec_rev_digit_bytes(digits@)
                    =~= spec_dec_digit_bytes(n) + spec_rev_digit_bytes(prev));
            } else {
                assert(spec_dec_digit_bytes(n) =~= seq![spec_hex_digit_byte((n % 10) as u8)]);
                assert(spec_rev_digit_bytes(digits@) =~= spec_dec_digit_bytes(n)
                    + spec_rev_digit_bytes(prev));
            }
            if prev.len() == 0 {
                assert(spec_dec_bytes_partial(n, prev) =~= spec_dec_digit_bytes(n));
            }
        }
        n = n / 10;
    }
    proof {
        assert(spec_dec_digit_bytes(x) =~= spec_rev_digit_bytes(digits@));
    }
    let mut out: Vec<u8> = Vec::new();
    let count = digits.len();
    let mut i: usize = 0;
    while i < count
        invariant
            count == digits@.len(),
            0 <= i <= count,
            forall|j: int| 0 <= j < count ==> digits@[j] < 10,
            out@ =~= spec_rev_digit_bytes(digits@).subrange(0, i as int),
        decreases count - i,
    {
        let d = digits[count - 1 - i];
        let b: u8 = if d < 10 {
            0x30 + d
        } else {
            0x57 + d
        };
        out.push(b);
        proof {
            assert(out@ =~= spec_rev_digit_bytes(digits@).subrange(0, i + 1));
        }
        i = i + 1;
    }
    proof {
        assert(out@ =~= spec_rev_digit_bytes(digits@));
    }
    out
}

/// Lowercase hex encoding of bytes, as ASCII bytes: two digits per
/// byte, high nibble first.
pub open spec fn spec_hex_bytes(data: Seq<u8>) -> Seq<u8>
    decreases data.len(),
{
    if data.len() == 0 {
        Seq::empty()
    } else {
        seq![
            spec_hex_digit_byte((data.first() >> 4u32) as u8),
            spec_hex_digit_byte((data.first() & 0x0fu8) as u8),
        ] + spec_hex_bytes(data.drop_first())
    }
}

/// Writes bytes as lowercase hex ASCII bytes.
pub fn hex_bytes_of(data: &[u8]) -> (r: Vec<u8>)
    ensures
        r@ == spec_hex_bytes(data@),
{
    let n = data.len();
    let mut out: Vec<u8> = Vec::new();
    proof {
        assert(data@.skip(0) =~= data@);
    }
    let mut i: usize = 0;
    while i < n
        invariant
            n == data@.len(),
            0 <= i <= n,
            spec_hex_bytes(data@) =~= out@ + spec_hex_bytes(data@.skip(i as int)),
        decreases n - i,
    {
        let byte = data[i];
        let hi = byte / 16;
        let lo = byte % 16;
        proof {
            assert(byte >> 4u32 == byte / 16 && (byte & 0x0fu8) == byte % 16) by (bit_vector);
            assert(data@.skip(i as int).first() == data@[i as int]);
            assert(data@.skip(i as int).drop_first() =~= data@.skip(i + 1));
        }
        out.push(
            if hi < 10 {
                0x30 + hi
            } else {
                0x57 + hi
            },
        );
        out.push(
            if lo < 10 {
                0x30 + lo
            } else {
                0x57 + lo
            },
        );
        i = i + 1;
    }
    proof {
        assert(data@.skip(n as int) =~= Seq::<u8>::empty());
        assert(out@ =~= spec_hex_bytes(data@));
    }
    out
}

/// Whether every byte is an ASCII decimal digit.
pub open spec fn spec_all_dec_digits(s: Seq<u8>) -> bool {
    forall|i: int| 0 <= i < s.len() ==> 0x30 <= #[trigger] s[i] <= 0x39
}

/// The number denoted by a string of ASCII decimal digits.
pub open spec fn spec_dec_value(s: Seq<u8>) -> int
    decreases s.len(),
{
    if s.len() == 0 {
        0
    } else {
        spec_dec_value(s.drop_last()) * 10 + (s.last() - 0x30)
    }
}

/// The value of a digit string and of each of its prefixes is
/// non-negative, and no prefix exceeds the whole.
proof fn lemma_dec_value_prefix(s: Seq<u8>, i: int)
    requires
        spec_all_dec_digits(s),
        0 <= i <= s.len(),
    ensures
        0 <= spec_dec_value(s.subrange(0, i)) <= spec_dec_value(s),
    decreases s.len(),
{
    if s.len() == 0 {
        assert(s.subrange(0, i) =~= s);
    } else {
        let u = s.drop_last();
        assert(spec_all_dec_digits(u));
        lemma_dec_value_prefix(u, if i <= u.len() { i } else { u.len() as int });
        lemma_dec_value_prefix(u, u.len() as int);
        assert(u.subrange(0, u.len() as int) =~= u);
        assert(s.last() - 0x30 >= 0);
        if i <= u.len() {
            assert(s.subrange(0, i) =~= u.subrange(0, i));
            assert(spec_dec_value(u) <= spec_dec_value(u) * 10 + (s.last() - 0x30))
                by (nonlinear_arith)
                requires
                    spec_dec_value(u) >= 0,
                    s.last() - 0x30 >= 0,
            ;
        } else {
            assert(s.subrange(0, i) =~= s);
        }
    }
}

/// The parse of an optionally `+`-signed decimal `u64`, as `str::parse`
/// reads it: `None` on an empty digit string, a non-digit, or overflow.
pub open spec fn spec_parse_u64(s: Seq<u8>) -> Option<u64> {
    let t = if s.len() > 0 && s[0] == 0x2b { s.drop_first() } else { s };
    if t.len() == 0 || !spec_all_dec_digits(t) || spec_dec_value(t) > u64::MAX {
        None
    } else {
        Some(spec_dec_value(t) as u64)
    }
}

/// Parses an optionally `+`-signed decimal `u64` from ASCII bytes.
pub fn parse_u64_dec(s: &[u8]) -> (r: Option<u64>)
    ensures
        r == spec_parse_u64(s@),
{
    let len = s.len();
    let start: usize = if len > 0 && s[0] == 0x2b {
        1
    } else {
        0
    };
    let ghost t = if s@.len() > 0 && s@[0] == 0x2b { s@.drop_first() } else { s@ };
    proof {
        assert(t =~= s@.subrange(start as int, len as int));
    }
    if len == start {
        return None;
    }
    let mut acc: u64 = 0;
    let mut i: usize = start;
    while i < len
        invariant
            len == s@.len(),
            start <= i <= len,
            start < len,
            start <= 1,
            t == (if s@.len() > 0 && s@[0] == 0x2b { s@.drop_first() } else { s@ }),
            t =~= s@.subrange(start as int, len as int),
            spec_all_dec_digits(t.subrange(0, i - start)),
            acc == spec_dec_value(t.subrange(0, i - start)),
        decreases len - i,
    {
        let b = s[i];
        if b < 0x30 || b > 0x39 {
            proof {
                assert(t[i - start] == b);
                assert(!spec_all_dec_digits(t));
            }
            return None;
        }
        let d = b - 0x30;
        proof {
            assert(t.subrange(0, i - start + 1).drop_last() =~= t.subrange(0, i - start));
            assert(t.subrange(0, i - start + 1).last() == b);
        }
        if acc > (u64::MAX - (d as u64)) / 10 {
            proof {
                assert(spec_dec_value(t.subrange(0, i - start + 1)) > u64::MAX)
                    by (nonlinear_arith)
                    requires
                        spec_dec_value(t.subrange(0, i - start + 1)) == acc * 10 + d,
                        acc > (u64::MAX - d) / 10,
                        0 <= d <= 9,
                        acc <= u64::MAX,
                ;
                if spec_all_dec_digits(t) {
                    lemma_dec_value_prefix(t, i - start + 1);
                }
            }
            return None;
        }
        acc = acc * 10 + (d as u64);
        i = i + 1;
    }
    proof {
        assert(t.subrange(0, (len - start) as int) =~= t);
        lemma_dec_value_prefix(t, t.len() as int);
    }
    Some(acc)
}

} // verus!
