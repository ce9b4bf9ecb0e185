//! SHA-256 digests and their hexadecimal text.

use crate::ids::hex_digit;
use crate::text::is_digest;
use vstd::prelude::*;
use vstd::utf8::encode_utf8;

verus! {

/// The SHA-256 digest of `bytes`.
pub uninterp spec fn sha256(bytes: Seq<u8>) -> Seq<u8>;

/// `sha2::Sha256::digest`: thirty-two bytes that depend on `bytes` alone.
#[verifier::external_body]
pub(crate) fn sha256_bytes(bytes: &[u8]) -> (r: Vec<u8>)
    ensures
        r@ == sha256(bytes@),
        r@.len() == 32,
{
    <sha2::Sha256 as sha2::Digest>::digest(bytes).to_vec()
}

/// Two lower-case hexadecimal digits for each byte.
pub open spec fn hex_text(bytes: Seq<u8>) -> Seq<char> {
    Seq::new(
        2 * bytes.len(),
        |i: int|
            if i % 2 == 0 {
                hex_digit((bytes[i / 2] / 16) as nat)
            } else {
                hex_digit((bytes[i / 2] % 16) as nat)
            },
    )
}

/// `hex::encode`: each byte as two lower-case digits, high half first.
#[verifier::external_body]
pub(crate) fn hex_encode(bytes: &[u8]) -> (r: String)
    ensures
        r@ == hex_text(bytes@),
{
    hex::encode(bytes)
}

/// The SHA-256 digest of `bytes`, as hexadecimal text.
pub open spec fn sha256_hex_text(bytes: Seq<u8>) -> Seq<char> {
    hex_text(sha256(bytes))
}

/// The SHA-256 digest of the UTF-8 encoding of `s`, as hexadecimal text.
pub open spec fn text_digest(s: Seq<char>) -> Seq<char> {
    sha256_hex_text(encode_utf8(s))
}

/// The text of thirty-two bytes has the shape of a digest.
proof fn digits_are_shaped(bytes: Seq<u8>)
    requires
        bytes.len() == 32,
    ensures
        is_digest(hex_text(bytes)),
{
}

/// The hexadecimal SHA-256 digest of `bytes`: sixty-four lower-case digits.
pub fn sha256_hex(bytes: &[u8]) -> (r: String)
    ensures
        r@ == sha256_hex_text(bytes@),
        is_digest(r@),
{
    let d = sha256_bytes(bytes);
    let r = hex_encode(d.as_slice());
    proof {
        digits_are_shaped(d@);
    }
    r
}

/// The hexadecimal SHA-256 digest of a string.
pub fn sha256_hex_str(s: &str) -> (r: String)
    ensures
        r@ == text_digest(s@),
        is_digest(r@),
{
    sha256_hex(s.as_bytes())
}

} // verus!
