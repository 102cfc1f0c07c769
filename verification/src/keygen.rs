//! Key pairs from a seed, and the address of a public key.
//!
//! Keys are held as bytes: a secret key as the 32 bytes that secp256k1 reads
//! it from, a public key in its compressed form of 33 bytes. The curve
//! arithmetic, the seeded generator and the two encodings used for addresses
//! come from other crates and are taken on trust.

use vstd::prelude::*;
use crate::encoding::push_bytes;
use crate::hashing::{digest_hex, double_sha256, double_sha256_of, sha256_hex};
use rand::{Rng, SeedableRng};
use ripemd::Digest;

verus! {

/// The 32 bytes that a `Pcg64` generator seeded with `seed` gives first.
pub uninterp spec fn seed_bytes(seed: u64) -> Seq<u8>;

/// Whether secp256k1 accepts `bytes` as a secret key.
pub uninterp spec fn is_secret_key(bytes: Seq<u8>) -> bool;

/// The compressed form of the public key that belongs to the secret key
/// `secret`.
pub uninterp spec fn public_key_of(secret: Seq<u8>) -> Seq<u8>;

/// The RIPEMD-160 digest of `data`.
pub uninterp spec fn ripemd160_of(data: Seq<u8>) -> Seq<u8>;

/// `data` in base-58 text, Bitcoin alphabet.
pub uninterp spec fn base58_of(data: Seq<u8>) -> Seq<char>;

/// The address of the public key with compressed form `public_key`: the
/// RIPEMD-160 digest of the hexadecimal text of its SHA-256 digest, followed
/// by the double SHA-256 digest of the first four bytes of that, in base 58.
pub open spec fn address_of(public_key: Seq<u8>) -> Seq<char> {
    let body = ripemd160_of(sha256_hex(public_key));
    base58_of(body + double_sha256_of(body.take(4)))
}

/// Seeds a `pcg_rand::Pcg64` with `SeedableRng::seed_from_u64` and draws 32
/// bytes from it with `Rng::gen`. Trusted: the bytes depend on the seed alone.
#[verifier::external_body]
fn draw_seed_bytes(seed: u64) -> (bytes: Vec<u8>)
    ensures
        bytes@ == seed_bytes(seed),
        bytes@.len() == 32,
{
    pcg_rand::Pcg64::seed_from_u64(seed).gen::<[u8; 32]>().to_vec()
}

/// Reads a secret key with `secp256k1::SecretKey::from_slice` and derives its
/// public key with `PublicKey::from_secret_key`, compressed by
/// `PublicKey::serialize`. Trusted: the key is read exactly when secp256k1
/// accepts the bytes, and the 33 bytes that come back depend on them alone.
#[verifier::external_body]
fn derive_public_key(secret: &[u8]) -> (public_key: Option<Vec<u8>>)
    ensures
        public_key.is_some() == is_secret_key(secret@),
        public_key.is_some() ==> public_key.unwrap()@ == public_key_of(secret@)
            && public_key.unwrap()@.len() == 33,
{
    let key = secp256k1::SecretKey::from_slice(secret).ok()?;
    let context = secp256k1::Secp256k1::new();
    Some(secp256k1::PublicKey::from_secret_key(&context, &key).serialize().to_vec())
}

/// Calls `ripemd::Ripemd160::digest`. Trusted: the 20 bytes depend on `data`
/// alone.
#[verifier::external_body]
fn ripemd160(data: &[u8]) -> (digest: Vec<u8>)
    ensures
        digest@ == ripemd160_of(data@),
        digest@.len() == 20,
{
    ripemd::Ripemd160::digest(data).to_vec()
}

/// Calls `bs58::encode`. Trusted: the text depends on `data` alone.
#[verifier::external_body]
fn base58(data: &[u8]) -> (text: String)
    ensures
        text@ == base58_of(data@),
{
    bs58::encode(data).into_string()
}

/// The key pair for `seed`: the secret key, then the public key. There is
/// none when the bytes drawn for `seed` are no secret key of the curve.
pub fn generate_curve_keys(seed: u64) -> (keys: Option<(Vec<u8>, Vec<u8>)>)
    ensures
        keys.is_some() == is_secret_key(seed_bytes(seed)),
        keys.is_some() ==> keys.unwrap().0@ == seed_bytes(seed)
            && keys.unwrap().1@ == public_key_of(seed_bytes(seed)),
{
    let secret = draw_seed_bytes(seed);
    match derive_public_key(secret.as_slice()) {
        Some(public_key) => Some((secret, public_key)),
        None => None,
    }
}

/// The address of a public key, given in its compressed form.
pub fn address(public_key: &[u8]) -> (text: Option<String>)
    ensures
        text.is_some(),
        text.unwrap()@ == address_of(public_key@),
{
    let digest_text = digest_hex(public_key);
    let mut body = ripemd160(digest_text.as_slice());
    let checksum = double_sha256(slice_take(body.as_slice(), 4));
    proof {
        assert(body@.subrange(0, 4) == body@.take(4));
    }
    push_bytes(&mut body, checksum.as_slice());
    Some(base58(body.as_slice()))
}

/// The first `n` elements of `bytes`.
fn slice_take(bytes: &[u8], n: usize) -> (head: &[u8])
    requires
        n <= bytes@.len(),
    ensures
        head@ == bytes@.subrange(0, n as int),
{
    vstd::slice::slice_subrange(bytes, 0, n)
}

} // verus!
