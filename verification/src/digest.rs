//! Digests of contents and their notation.

use vstd::prelude::*;
use vstd::string::*;

verus! {

/// The SHA-256 digest of a byte string.
pub uninterp spec fn sha256(bytes: Seq<u8>) -> Seq<u8>;

/// The digest that `sha2::Sha256::digest` computes. The contract claims that it depends on the
/// bytes alone and has 32 bytes.
#[verifier::external_body]
fn sha256_digest(bytes: &[u8]) -> (r: Vec<u8>)
    ensures
        r@ == sha256(bytes@),
        r@.len() == 32,
{
    let digest: [u8; 32] = <sha2::Sha256 as sha2::Digest>::digest(bytes).into();
    digest.to_vec()
}

/// The hexadecimal digit of a number below sixteen, in small letters.
pub open spec fn hex_digit(d: int) -> char {
    if d < 10 {
        (d + 48) as u8 as char
    } else {
        (d + 87) as u8 as char
    }
}

/// A byte string in hexadecimal notation, two digits for each byte.
pub open spec fn hex_text(bytes: Seq<u8>) -> Seq<char> {
    Seq::new(
        2 * bytes.len(),
        |i: int|
            if i % 2 == 0 {
                hex_digit(bytes[i / 2] as int / 16)
            } else {
                hex_digit(bytes[i / 2] as int % 16)
            },
    )
}

/// Writes a byte string with `hex::encode`. The contract claims that the text is two digits for
/// each byte, the higher one first, in small letters.
#[verifier::external_body]
fn hex_encode(bytes: &[u8]) -> (r: String)
    ensures
        r@ == hex_text(bytes@),
{
    hex::encode(bytes)
}

/// The SHA-256 digest of a byte string in hexadecimal notation.
pub fn sha256_hex(bytes: &[u8]) -> (r: String)
    ensures
        r@ == hex_text(sha256(bytes@)),
        r@.len() == 64,
{
    let digest = sha256_digest(bytes);
    hex_encode(digest.as_slice())
}

/// The SHA-256 digest of a text in UTF-8, in hexadecimal notation.
pub open spec fn text_digest(text: Seq<char>) -> Seq<char> {
    hex_text(sha256(vstd::utf8::encode_utf8(text)))
}

/// The SHA-256 digest of a text in UTF-8, in hexadecimal notation.
pub fn text_sha256_hex(text: &str) -> (r: String)
    ensures
        r@ == text_digest(text@),
        r@.len() == 64,
{
    sha256_hex(text.as_bytes())
}

} // verus!
