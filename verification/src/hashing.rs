//! SHA-256 digests as raw bytes.
//!
//! The digest itself is computed by the `sha256` crate, which hands it back as
//! hexadecimal text; the `hex` crate turns that text into bytes. Both calls
//! are taken on trust. What is proved here is that the text always decodes,
//! and what the two digests of this crate are in terms of it.

use vstd::prelude::*;

verus! {

#[verifier::external_type_specification]
#[verifier::external_body]
pub struct ExFromHexError(hex::FromHexError);

/// The SHA-256 digest of `data` as the `sha256` crate prints it: the ASCII
/// bytes of its hexadecimal text.
pub uninterp spec fn sha256_hex(data: Seq<u8>) -> Seq<u8>;

/// Whether `c` is the ASCII code of a hexadecimal digit of either case.
pub open spec fn is_hex_digit(c: u8) -> bool {
    (48 <= c <= 57) || (97 <= c <= 102) || (65 <= c <= 70)
}

/// The value of the hexadecimal digit with ASCII code `c`.
pub open spec fn hex_value(c: u8) -> int {
    if 48 <= c <= 57 {
        c - 48
    } else if 97 <= c <= 102 {
        c - 87
    } else {
        c - 55
    }
}

/// Whether `text` is hexadecimal text for whole bytes: an even number of
/// hexadecimal digits.
pub open spec fn is_hex_text(text: Seq<u8>) -> bool {
    text.len() % 2 == 0 && forall|i: int| 0 <= i < text.len() ==> is_hex_digit(#[trigger] text[i])
}

/// The bytes that hexadecimal `text` stands for, two digits to a byte.
pub open spec fn hex_bytes(text: Seq<u8>) -> Seq<u8> {
    Seq::new(
        text.len() / 2,
        |i: int| (16 * hex_value(text[2 * i]) + hex_value(text[2 * i + 1])) as u8,
    )
}

/// The SHA-256 digest of `data`, as bytes.
pub open spec fn sha256_of(data: Seq<u8>) -> Seq<u8> {
    hex_bytes(sha256_hex(data))
}

/// The digest of the hexadecimal text of the digest of `data`, as bytes.
pub open spec fn double_sha256_of(data: Seq<u8>) -> Seq<u8> {
    hex_bytes(sha256_hex(sha256_hex(data)))
}

/// Calls `sha256::digest` on a byte slice and returns the bytes of the text
/// it produces. Trusted: the text depends on `data` alone, and it is the
/// lower-case hexadecimal form of a 32-byte digest, so 64 characters out of
/// `0-9a-f`.
#[verifier::external_body]
pub(crate) fn digest_hex(data: &[u8]) -> (text: Vec<u8>)
    ensures
        text@ == sha256_hex(data@),
        text@.len() == 64,
        forall|i: int| 0 <= i < 64 ==> (48 <= #[trigger] text@[i] <= 57) || (97 <= text@[i] <= 102),
{
    sha256::digest(data).into_bytes()
}

/// Calls `hex::decode`. Trusted: it succeeds exactly on an even number of
/// hexadecimal digits of either case, and then each pair of digits gives one
/// byte, the first digit being the high half.
#[verifier::external_body]
fn hex_decode(text: &[u8]) -> (decoded: Result<Vec<u8>, hex::FromHexError>)
    ensures
        decoded.is_ok() == is_hex_text(text@),
        decoded.is_ok() ==> decoded.unwrap()@ == hex_bytes(text@),
{
    hex::decode(text)
}

/// The SHA-256 digest of `data`: always 32 bytes.
pub fn sha256(data: &[u8]) -> (digest: Vec<u8>)
    ensures
        digest@ == sha256_of(data@),
        digest@.len() == 32,
{
    let text = digest_hex(data);
    decode_digest(&text)
}

/// The SHA-256 digest of the hexadecimal text of the SHA-256 digest of
/// `data`: always 32 bytes.
pub fn double_sha256(data: &[u8]) -> (digest: Vec<u8>)
    ensures
        digest@ == double_sha256_of(data@),
        digest@.len() == 32,
{
    let first = digest_hex(data);
    let second = digest_hex(first.as_slice());
    decode_digest(&second)
}

/// Decodes the text of a digest. The text is known to be well formed, so
/// decoding cannot fail.
fn decode_digest(text: &Vec<u8>) -> (digest: Vec<u8>)
    requires
        text@.len() == 64,
        forall|i: int| 0 <= i < 64 ==> (48 <= #[trigger] text@[i] <= 57) || (97 <= text@[i] <= 102),
    ensures
        digest@ == hex_bytes(text@),
        digest@.len() == 32,
{
    match hex_decode(text.as_slice()) {
        Ok(digest) => digest,
        Err(_) => {
            proof {
                assert(is_hex_text(text@));
            }
            Vec::new()
        },
    }
}

} // verus!
