use vstd::prelude::*;
use sha1::{Digest, Sha1};
use crate::text::hex_digit;

verus! {

/// The SHA-1 digest of a byte string: twenty bytes.
pub uninterp spec fn sha1_hash(data: Seq<u8>) -> Seq<u8>;

/// Computes the SHA-1 digest of `data`.
///
/// Trusted: `Sha1::digest` of the `sha1` crate hashes all of `data` in one
/// call and returns the digest, which has twenty bytes; the digest depends on
/// the bytes alone.
#[verifier::external_body]
pub(crate) fn sha1_digest(data: &[u8]) -> (digest: [u8; 20])
    ensures
        digest@ == sha1_hash(data@),
{
    Sha1::digest(data).into()
}

/// The bytes of `b` in hexadecimal, two lower-case digits each.
pub open spec fn hex_text(b: Seq<u8>) -> Seq<char> {
    Seq::new(
        2 * b.len(),
        |i: int|
            if i % 2 == 0 {
                hex_digit(b[i / 2] / 16)
            } else {
                hex_digit(b[i / 2] % 16)
            },
    )
}

/// Writes `data` in hexadecimal.
///
/// Trusted: `hex::encode` writes each byte as two lower-case hexadecimal
/// digits, the high half first, in the order of the bytes.
#[verifier::external_body]
pub(crate) fn hex_encode(data: &[u8]) -> (text: String)
    ensures
        text@ == hex_text(data@),
{
    hex::encode(data)
}

} // verus!
