//! Digests of file contents and their hexadecimal form.

use vstd::prelude::*;

verus! {

/// The MD5 digest of `data`, as computed by the `md5` crate.
pub uninterp spec fn md5_of(data: Seq<u8>) -> Seq<u8>;

/// The SHA-256 digest of `data`, as computed by the `sha2` crate.
pub uninterp spec fn sha256_of(data: Seq<u8>) -> Seq<u8>;

/// The character for a nibble (`0..=15`) in lower-case hexadecimal.
pub open spec fn hex_digit(n: u8) -> char {
    if n < 10 {
        ((48 + n) as u32) as char
    } else {
        ((87 + n) as u32) as char
    }
}

/// Lower-case hexadecimal encoding: two characters per byte, high nibble first.
pub open spec fn hex_lower(data: Seq<u8>) -> Seq<char>
    decreases data.len(),
{
    if data.len() == 0 {
        Seq::empty()
    } else {
        seq![hex_digit(data[0] / 16), hex_digit(data[0] % 16)] + hex_lower(data.drop_first())
    }
}

/// `md5::compute(data)`: the 16-byte MD5 digest of `data`.
///
/// The digest itself is not specified here; the contract names it
/// (`md5_of`) and states its length, which the `Digest([u8; 16])` type fixes.
#[verifier::external_body]
pub(crate) fn md5_digest(data: &[u8]) -> (r: Vec<u8>)
    ensures
        r@ == md5_of(data@),
        r@.len() == 16,
{
    md5::compute(data).0.to_vec()
}

/// `<sha2::Sha256 as Digest>::digest(data)`: the 32-byte SHA-256 digest.
///
/// The digest itself is not specified here; the contract names it
/// (`sha256_of`) and states its length, which the output type fixes.
#[verifier::external_body]
pub(crate) fn sha256_digest(data: &[u8]) -> (r: Vec<u8>)
    ensures
        r@ == sha256_of(data@),
        r@.len() == 32,
{
    <sha2::Sha256 as sha2::Digest>::digest(data).to_vec()
}

/// `hex::encode(data)`: lower-case hexadecimal, two characters per byte,
/// high nibble first (the crate's `HEX_CHARS_LOWER` table).
#[verifier::external_body]
pub(crate) fn hex_encode(data: &[u8]) -> (r: String)
    ensures
        r@ == hex_lower(data@),
{
    hex::encode(data)
}

/// Lower-case hexadecimal MD5 digest of `data` (what `format!("{:x}", md5::compute(data))` prints).
pub fn md5_hex(data: &[u8]) -> (r: String)
    ensures
        r@ == hex_lower(md5_of(data@)),
{
    let d = md5_digest(data);
    hex_encode(&d)
}

/// Lower-case hexadecimal SHA-256 digest of `data`.
pub fn sha256_hex(data: &[u8]) -> (r: String)
    ensures
        r@ == hex_lower(sha256_of(data@)),
{
    let d = sha256_digest(data);
    hex_encode(&d)
}

} // verus!
