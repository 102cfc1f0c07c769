//! ECDSA over secp256k1, on bytes.
//!
//! A signature is held in its DER form, a public key in its compressed form.
//! Signing and checking are done by the `secp256k1` crate and taken on trust;
//! both first hash the data they are given with SHA-256, as
//! `Message::from_hashed_data` does.

use vstd::prelude::*;
use crate::keygen::{is_secret_key, public_key_of};
use secp256k1::hashes::sha256;

verus! {

/// The DER form of the signature that the secret key `secret` gives for
/// `data`. Signing is deterministic: the nonce is derived from key and data.
pub uninterp spec fn signature_of(secret: Seq<u8>, data: Seq<u8>) -> Seq<u8>;

/// Whether `signature` is the DER form of a signature that secp256k1 accepts
/// for `data` under the public key read from `public_key`.
pub uninterp spec fn signature_valid(public_key: Seq<u8>, data: Seq<u8>, signature: Seq<u8>) -> bool;

/// Reads the key with `secp256k1::SecretKey::from_slice`, makes the message
/// with `Message::from_hashed_data` and signs it with `Secp256k1::sign_ecdsa`,
/// whose result `Signature::serialize_der` turns into bytes. Trusted: there is
/// a signature exactly when secp256k1 accepts the key, it depends on key and
/// data alone, and it is one that `Secp256k1::verify_ecdsa` accepts for the
/// same data under the public key of the secret key, as the documentation of
/// `verify_ecdsa` shows.
#[verifier::external_body]
pub(crate) fn sign_data(secret: &[u8], data: &[u8]) -> (signature: Option<Vec<u8>>)
    ensures
        signature.is_some() == is_secret_key(secret@),
        signature.is_some() ==> signature.unwrap()@ == signature_of(secret@, data@),
        signature.is_some() ==> signature_valid(public_key_of(secret@), data@, signature.unwrap()@),
{
    let key = secp256k1::SecretKey::from_slice(secret).ok()?;
    let message = secp256k1::Message::from_hashed_data::<sha256::Hash>(data);
    let context = secp256k1::Secp256k1::new();
    Some(context.sign_ecdsa(&message, &key).serialize_der().to_vec())
}

/// Reads the key with `secp256k1::PublicKey::from_slice` and the signature
/// with `ecdsa::Signature::from_der`, makes the message with
/// `Message::from_hashed_data` and checks it with `Secp256k1::verify_ecdsa`.
/// Trusted: the answer depends on the three byte strings alone; it is `false`
/// where key or signature cannot be read.
#[verifier::external_body]
pub(crate) fn check_signature(public_key: &[u8], data: &[u8], signature: &[u8]) -> (valid: bool)
    ensures
        valid == signature_valid(public_key@, data@, signature@),
{
    let Ok(key) = secp256k1::PublicKey::from_slice(public_key) else { return false };
    let Ok(signature) = secp256k1::ecdsa::Signature::from_der(signature) else { return false };
    let message = secp256k1::Message::from_hashed_data::<sha256::Hash>(data);
    secp256k1::Secp256k1::new().verify_ecdsa(&message, &signature, &key).is_ok()
}

} // verus!
