//! The search for a nonce.

use vstd::prelude::*;
use crate::transactions::{Block, BlockView};
use crate::verifiers::{hash_meets_target, meets_target};

verus! {

/// Whether the hash of `block` meets the target once its nonce is `nonce`.
pub open spec fn nonce_works(block: BlockView, nonce: u32) -> bool {
    meets_target(block.with_nonce(Some(nonce)).digest())
}

/// Whether `nonce` is the least nonce with which the hash of `block` meets
/// the target.
pub open spec fn is_least_nonce(block: BlockView, nonce: u32) -> bool {
    &&& nonce_works(block, nonce)
    &&& forall|lower: u32| lower < nonce ==> !nonce_works(block, lower)
}

/// The least nonce with which the hash of `block` meets the target, if there
/// is one.
pub open spec fn least_nonce(block: BlockView) -> Option<u32> {
    if exists|nonce: u32| is_least_nonce(block, nonce) {
        Some(choose|nonce: u32| is_least_nonce(block, nonce))
    } else {
        None
    }
}

/// The block as mining leaves it when it finds a nonce: with the least
/// nonce that works and with its Merkle root remembered.
pub open spec fn mined(block: BlockView) -> Option<BlockView> {
    match least_nonce(block) {
        Some(nonce) => Some(block.with_nonce(Some(nonce)).built()),
        None => None,
    }
}

/// There is at most one least nonce.
pub proof fn lemma_least_nonce_unique(block: BlockView, nonce: u32)
    requires
        is_least_nonce(block, nonce),
    ensures
        least_nonce(block) == Some(nonce),
{
    let chosen = choose|other: u32| is_least_nonce(block, other);
    assert(is_least_nonce(block, chosen));
    if chosen < nonce {
        assert(!nonce_works(block, chosen));
    }
    if nonce < chosen {
        assert(!nonce_works(block, nonce));
    }
}

/// Looks for the least nonce with which the hash of `block` meets the
/// target, trying every nonce in order from zero up to `u32::MAX`.
///
/// If there is one, the block is left with it and it is returned. If there
/// is none, the block keeps the nonce it had. Either way the Merkle root of
/// the block is remembered from now on if there is one.
pub fn mine(block: &mut Block) -> (found: Option<u32>)
    ensures
        found == least_nonce(old(block)@),
        match found {
            Some(nonce) => {
                &&& nonce_works(old(block)@, nonce)
                &&& forall|lower: u32| lower < nonce ==> !nonce_works(old(block)@, lower)
                &&& final(block)@ == old(block)@.with_nonce(Some(nonce)).built()
                &&& meets_target(final(block)@.digest())
            },
            None => {
                &&& forall|nonce: u32| !nonce_works(old(block)@, nonce)
                &&& final(block)@ == old(block)@.built()
            },
        },
{
    let start = block.nonce;
    if block.build_merkel_tree().is_none() {
        proof {
            assert forall|nonce: u32| !is_least_nonce(old(block)@, nonce) by {
                assert(!nonce_works(old(block)@, nonce));
            }
        }
        return None;
    }
    let mut nonce: u32 = 0;
    while nonce < u32::MAX
        invariant
            old(block)@.root() is Some,
            block@ == (BlockView { nonce: block@.nonce, ..old(block)@.built() }),
            forall|lower: u32| lower < nonce ==> !nonce_works(old(block)@, lower),
        decreases u32::MAX - nonce,
    {
        let hash = block.hash(Some(nonce));
        if hash_meets_target(&hash) {
            proof {
                lemma_least_nonce_unique(old(block)@, nonce);
            }
            return Some(nonce);
        }
        nonce += 1;
    }
    let hash = block.hash(Some(nonce));
    if hash_meets_target(&hash) {
        proof {
            lemma_least_nonce_unique(old(block)@, nonce);
        }
        return Some(nonce);
    }
    block.nonce = start;
    proof {
        assert forall|other: u32| !nonce_works(old(block)@, other) by {
            if other < u32::MAX {
                assert(!nonce_works(old(block)@, other));
            }
        }
    }
    None
}

} // verus!
