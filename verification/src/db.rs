//! The store of committed transactions and unspent outputs.
//!
//! The store is a passive index: it checks nothing. An unspent output is
//! kept under its owner, the hash of its transaction and its own hash,
//! together with its value, so the set of spendable outputs and their values
//! are one structure and cannot drift apart.

use vstd::prelude::*;
use crate::assoc::{AssocList, Key};
use crate::encoding::{copy_bytes, same_bytes};
use crate::transactions::{Tx, TxView};

verus! {

/// What names an output in the store: the public key of its owner, the hash
/// of the transaction that holds it, and its own hash.
#[derive(Debug)]
pub struct OutputRef {
    pub owner: Vec<u8>,
    pub tx_hash: Vec<u8>,
    pub output_hash: Vec<u8>,
}

impl View for OutputRef {
    type V = (Seq<u8>, Seq<u8>, Seq<u8>);

    open spec fn view(&self) -> (Seq<u8>, Seq<u8>, Seq<u8>) {
        (self.owner@, self.tx_hash@, self.output_hash@)
    }
}

impl Key for OutputRef {
    fn same(&self, other: &Self) -> (same: bool) {
        same_bytes(self.owner.as_slice(), other.owner.as_slice()) && same_bytes(
            self.tx_hash.as_slice(),
            other.tx_hash.as_slice(),
        ) && same_bytes(self.output_hash.as_slice(), other.output_hash.as_slice())
    }
}

impl OutputRef {
    /// The reference made of copies of the three byte strings.
    pub fn new(owner: &[u8], tx_hash: &[u8], output_hash: &[u8]) -> (reference: OutputRef)
        ensures
            reference@ == (owner@, tx_hash@, output_hash@),
    {
        OutputRef {
            owner: copy_bytes(owner),
            tx_hash: copy_bytes(tx_hash),
            output_hash: copy_bytes(output_hash),
        }
    }
}

/// The store.
#[derive(Debug)]
pub struct Db {
    /// Height of the block that was committed last.
    pub block_index: u32,
    /// Every recorded transaction, under its hash.
    pub tx_by_hash: AssocList<Vec<u8>, Tx>,
    /// Every unspent output, with its value.
    pub unspent_outputs: AssocList<OutputRef, u64>,
}

/// A [`Db`] as the contracts see it.
pub struct DbView {
    pub block_index: u32,
    pub tx_by_hash: Map<Seq<u8>, TxView>,
    pub unspent_outputs: Map<(Seq<u8>, Seq<u8>, Seq<u8>), u64>,
}

impl View for Db {
    type V = DbView;

    open spec fn view(&self) -> DbView {
        DbView {
            block_index: self.block_index,
            tx_by_hash: self.tx_by_hash@.map_values(|tx: Tx| tx@),
            unspent_outputs: self.unspent_outputs@,
        }
    }
}

impl DbView {
    /// The store with nothing in it.
    pub open spec fn empty() -> DbView {
        DbView { block_index: 0, tx_by_hash: Map::empty(), unspent_outputs: Map::empty() }
    }

    /// The transaction recorded under `hash`, if there is one.
    pub open spec fn lookup(self, hash: Seq<u8>) -> Option<TxView> {
        if self.tx_by_hash.contains_key(hash) {
            Some(self.tx_by_hash[hash])
        } else {
            None
        }
    }

    /// Whether the output is unspent.
    pub open spec fn is_unspent(self, owner: Seq<u8>, tx_hash: Seq<u8>, output_hash: Seq<u8>) -> bool {
        self.unspent_outputs.contains_key((owner, tx_hash, output_hash))
    }

    /// The outputs of `owner` that are unspent, each as the hash of its
    /// transaction and its own hash.
    pub open spec fn unspent_of(self, owner: Seq<u8>) -> Set<(Seq<u8>, Seq<u8>)> {
        Set::new(|pair: (Seq<u8>, Seq<u8>)| self.is_unspent(owner, pair.0, pair.1))
    }

    /// The store after `tx` was recorded under its hash. A transaction
    /// without a hash is not recorded.
    pub open spec fn record(self, tx: TxView) -> DbView {
        match tx.digest() {
            Some(hash) => DbView { tx_by_hash: self.tx_by_hash.insert(hash, tx), ..self },
            None => self,
        }
    }

    /// The store after the output was marked unspent with value `amount`.
    pub open spec fn mark_unspent(
        self,
        owner: Seq<u8>,
        tx_hash: Seq<u8>,
        output_hash: Seq<u8>,
        amount: u64,
    ) -> DbView {
        DbView {
            unspent_outputs: self.unspent_outputs.insert((owner, tx_hash, output_hash), amount),
            ..self
        }
    }

    /// The store after the output was marked spent.
    pub open spec fn mark_spent(self, owner: Seq<u8>, tx_hash: Seq<u8>, output_hash: Seq<u8>) -> DbView {
        DbView {
            unspent_outputs: self.unspent_outputs.remove((owner, tx_hash, output_hash)),
            ..self
        }
    }
}

impl Default for Db {
    fn default() -> (db: Db)
        ensures
            db@ == DbView::empty(),
    {
        Db::new()
    }
}

impl Db {
    /// The store with nothing in it.
    pub fn new() -> (db: Db)
        ensures
            db@ == DbView::empty(),
    {
        let db = Db { block_index: 0, tx_by_hash: AssocList::new(), unspent_outputs: AssocList::new() };
        proof {
            assert(db@.tx_by_hash =~= Map::empty());
        }
        db
    }

    /// Records a copy of `tx` under its hash. Says whether it did: a
    /// transaction without a hash is not recorded.
    pub fn record_committed_tx(&mut self, tx: &Tx) -> (recorded: bool)
        ensures
            final(self)@ == old(self)@.record(tx@),
            recorded == tx@.digest().is_some(),
    {
        match tx.digest() {
            Some(hash) => {
                self.tx_by_hash.insert(hash, tx.clone());
                proof {
                    assert(self@.tx_by_hash =~= old(self)@.tx_by_hash.insert(hash@, tx@));
                }
                true
            },
            None => false,
        }
    }

    /// The transaction recorded under `hash`, if there is one.
    pub fn lookup_tx(&self, hash: &Vec<u8>) -> (tx: Option<&Tx>)
        ensures
            tx is Some == self@.lookup(hash@).is_some(),
            tx is Some ==> tx.unwrap()@ == self@.lookup(hash@).unwrap(),
    {
        self.tx_by_hash.get(hash)
    }

    /// Marks an output as unspent, with its value.
    pub fn mark_output_unspent(&mut self, identity: &[u8], tx_hash: &[u8], output_hash: &[u8], amount: u64)
        ensures
            final(self)@ == old(self)@.mark_unspent(identity@, tx_hash@, output_hash@, amount),
    {
        self.unspent_outputs.insert(OutputRef::new(identity, tx_hash, output_hash), amount);
    }

    /// Marks an output as spent.
    pub fn mark_output_spent(&mut self, identity: &[u8], tx_hash: &[u8], output_hash: &[u8])
        ensures
            final(self)@ == old(self)@.mark_spent(identity@, tx_hash@, output_hash@),
    {
        let reference = OutputRef::new(identity, tx_hash, output_hash);
        self.unspent_outputs.remove(&reference);
    }

    /// Whether an output is unspent.
    pub fn is_unspent(&self, identity: &[u8], tx_hash: &[u8], output_hash: &[u8]) -> (unspent: bool)
        ensures
            unspent == self@.is_unspent(identity@, tx_hash@, output_hash@),
    {
        let reference = OutputRef::new(identity, tx_hash, output_hash);
        self.unspent_outputs.contains_key(&reference)
    }

    /// The value of an unspent output; none if the output is not unspent.
    pub fn unspent_amount(&self, identity: &[u8], tx_hash: &[u8], output_hash: &[u8]) -> (amount: Option<u64>)
        ensures
            amount is Some == self@.is_unspent(identity@, tx_hash@, output_hash@),
            amount is Some ==> amount.unwrap() == self@.unspent_outputs[(identity@, tx_hash@, output_hash@)],
    {
        let reference = OutputRef::new(identity, tx_hash, output_hash);
        match self.unspent_outputs.get(&reference) {
            Some(amount) => Some(*amount),
            None => None,
        }
    }
}

} // verus!
