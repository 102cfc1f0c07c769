//! A single-process proof-of-work ledger.
//!
//! The crate defines transactions and blocks with a canonical content hash,
//! a store of unspent outputs, validators for transactions and blocks, a
//! brute-force miner, and a chain manager that appends blocks and settles a
//! one-level fork between two competing histories.
//!
//! Everything here is verified with Verus. The cryptographic primitives come
//! from other crates; each of them is reached through one small function
//! whose contract is taken on trust and documented where it stands.

pub mod assoc;
pub mod blockchain;
pub mod clock;
pub mod commit;
pub mod db;
pub mod encoding;
pub mod hashing;
pub mod keygen;
pub mod laws;
pub mod miner;
pub mod pool;
pub mod signature;
pub mod transactions;
pub mod verifiers;
pub mod wallet;

use vstd::prelude::*;
use crate::hashing::{sha256, sha256_of};

verus! {

/// Value minted by every block, before fees.
pub const MINING_REWARD: u64 = 250;

/// Largest number of pending transactions that go into one block.
pub const TXS_BY_BLOCK: usize = 4;

/// The hash that stands where a coinbase input would name an earlier
/// transaction: the SHA-256 digest of the word `GENESIS`.
pub open spec fn genesis_hash_of() -> Seq<u8> {
    sha256_of(seq![71u8, 69u8, 78u8, 69u8, 83u8, 73u8, 83u8])
}

/// The hash that stands where a coinbase input would name an earlier
/// transaction.
pub fn genesis_hash() -> (hash: Vec<u8>)
    ensures
        hash@ == genesis_hash_of(),
        hash@.len() == 32,
{
    let word: [u8; 7] = [71, 69, 78, 69, 83, 73, 83];
    proof {
        assert(word@ =~= seq![71u8, 69u8, 78u8, 69u8, 83u8, 73u8, 83u8]);
    }
    sha256(word.as_slice())
}

} // verus!
