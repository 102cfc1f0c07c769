//! A key pair with its address, able to sign.

use vstd::prelude::*;
use crate::keygen::{address, address_of, generate_curve_keys, is_secret_key, public_key_of, seed_bytes};
use crate::signature::{sign_data, signature_of, signature_valid};

verus! {

/// A secret key, its public key and the address of that public key.
///
/// The secret key of a wallet is always one that the curve accepts, and its
/// public key the one that belongs to it, so a wallet can always sign and
/// its signatures are accepted under its public key.
#[derive(Debug)]
pub struct Wallet {
    secret_key: Vec<u8>,
    public_key: Vec<u8>,
    address: String,
}

impl Wallet {
    #[verifier::type_invariant]
    spec fn can_sign(self) -> bool {
        is_secret_key(self.secret_key@) && self.public_key@ == public_key_of(self.secret_key@)
    }

    /// The bytes of the secret key.
    pub closed spec fn secret_bytes(self) -> Seq<u8> {
        self.secret_key@
    }

    /// The compressed form of the public key.
    pub closed spec fn public_bytes(self) -> Seq<u8> {
        self.public_key@
    }

    /// The address, as text.
    pub closed spec fn address_text(self) -> Seq<char> {
        self.address@
    }

    /// The wallet for `seed`. There is none when the bytes drawn for `seed`
    /// are no secret key of the curve.
    pub fn from_seed(seed: u64) -> (wallet: Option<Wallet>)
        ensures
            wallet.is_some() == is_secret_key(seed_bytes(seed)),
            wallet.is_some() ==> {
                &&& wallet.unwrap().secret_bytes() == seed_bytes(seed)
                &&& wallet.unwrap().public_bytes() == public_key_of(seed_bytes(seed))
                &&& wallet.unwrap().address_text() == address_of(public_key_of(seed_bytes(seed)))
            },
    {
        match generate_curve_keys(seed) {
            Some((secret_key, public_key)) => {
                match address(public_key.as_slice()) {
                    Some(address) => Some(Wallet { secret_key, public_key, address }),
                    None => None,
                }
            },
            None => None,
        }
    }

    /// The compressed form of the public key.
    pub fn public_key(&self) -> (key: &Vec<u8>)
        ensures
            key@ == self.public_bytes(),
    {
        &self.public_key
    }

    /// The address.
    pub fn address(&self) -> (text: &String)
        ensures
            text@ == self.address_text(),
    {
        &self.address
    }

    /// The signature of this wallet for `hash`, in DER form.
    pub fn sign(&self, hash: &[u8]) -> (signature: Vec<u8>)
        ensures
            signature@ == signature_of(self.secret_bytes(), hash@),
            signature_valid(self.public_bytes(), hash@, signature@),
    {
        proof {
            use_type_invariant(self);
        }
        match sign_data(self.secret_key.as_slice(), hash) {
            Some(signature) => signature,
            None => Vec::new(),
        }
    }
}

} // verus!
