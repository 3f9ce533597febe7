//! SHA-256 hashing and lowercase hex encoding.
//!
//! The digest itself is computed by the `sha2` crate and is only named
//! here: every contract that mentions a hash speaks of `spec_sha256`.

use vstd::prelude::*;

verus! {

/// The SHA-256 digest of a byte string. The digest is a pure function of
/// its input; its 32-byte length is stated by the wrapper below.
pub uninterp spec fn spec_sha256(data: Seq<u8>) -> Seq<u8>;

/// Double SHA-256, the content address used for transactions and headers.
pub open spec fn spec_sha256d(data: Seq<u8>) -> Seq<u8> {
    spec_sha256(spec_sha256(data))
}

/// Relies on `sha2::Sha256::digest`: the digest is 32 bytes and depends on
/// the input bytes alone.
#[verifier::external_body]
pub fn sha256_digest(data: &[u8]) -> (r: [u8; 32])
    ensures
        r@ == spec_sha256(data@),
        r@.len() == 32,
{
    let d = sha2::Sha256::digest(data);
    d.into()
}

/// Double SHA-256 of a byte string, as used for content addressing.
pub fn sha256d(data: &[u8]) -> (r: [u8; 32])
    ensures
        r@ == spec_sha256d(data@),
{
    let first = sha256_digest(data);
    sha256_digest(first.as_slice())
}

/// The lowercase hex digit for a value below 16.
pub open spec fn spec_hex_char(n: u8) -> char {
    if n == 0 {
        '0'
    } else if n == 1 {
        '1'
    } else if n == 2 {
        '2'
    } else if n == 3 {
        '3'
    } else if n == 4 {
        '4'
    } else if n == 5 {
        '5'
    } else if n == 6 {
        '6'
    } else if n == 7 {
        '7'
    } else if n == 8 {
        '8'
    } else if n == 9 {
        '9'
    } else if n == 10 {
        'a'
    } else if n == 11 {
        'b'
    } else if n == 12 {
        'c'
    } else if n == 13 {
        'd'
    } else if n == 14 {
        'e'
    } else {
        'f'
    }
}

/// Lowercase hex encoding of a byte string: two digits per byte, high
/// nibble first.
pub open spec fn spec_hex_of(data: Seq<u8>) -> Seq<char>
    decreases data.len(),
{
    if data.len() == 0 {
        Seq::empty()
    } else {
        seq![
            spec_hex_char((data.first() >> 4) as u8),
            spec_hex_char((data.first() & 0x0f) as u8),
        ] + spec_hex_of(data.drop_first())
    }
}

/// Relies on `hex::encode`: encodes bytes as a lowercase hex string, two
/// digits per byte, high nibble first.
#[verifier::external_body]
pub fn hex_encode(data: &[u8]) -> (r: String)
    ensures
        r@ == spec_hex_of(data@),
{
    hex::encode(data)
}

} // verus!

use sha2::Digest;
