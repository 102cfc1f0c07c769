//! Pools of pending transactions.
//!
//! A pool is a list of entries, each the hash of a transaction and its fee,
//! in the order in which they came in.

use vstd::prelude::*;
use crate::encoding::{copy_bytes, same_bytes};

verus! {

/// An entry of a pool as the contracts see it.
pub type EntryView = (Seq<u8>, u64);

/// A pool as the contracts see it.
pub open spec fn pool_view(pool: Seq<(Vec<u8>, u64)>) -> Seq<EntryView> {
    pool.map_values(|entry: (Vec<u8>, u64)| (entry.0@, entry.1))
}

/// The place of the entry that is taken first from a pool that is not
/// empty: the earliest among those with the highest fee.
pub open spec fn best_place(pool: Seq<EntryView>) -> int
    decreases pool.len(),
{
    if pool.len() <= 1 {
        0
    } else {
        let before = best_place(pool.drop_last());
        if pool.last().1 > pool[before].1 {
            pool.len() - 1
        } else {
            before
        }
    }
}

/// The entries that go into a block of at most `count` entries: the best
/// entry, then the best of what is left, and so on.
pub open spec fn select_top(pool: Seq<EntryView>, count: nat) -> Seq<EntryView>
    decreases count,
{
    if count == 0 || pool.len() == 0 {
        seq![]
    } else {
        seq![pool[best_place(pool)]] + select_top(pool.remove(best_place(pool)), (count - 1) as nat)
    }
}

/// What is left of a pool once the entries for a block of at most `count`
/// entries are taken out.
pub open spec fn leave_rest(pool: Seq<EntryView>, count: nat) -> Seq<EntryView>
    decreases count,
{
    if count == 0 || pool.len() == 0 {
        pool
    } else {
        leave_rest(pool.remove(best_place(pool)), (count - 1) as nat)
    }
}

/// The entries of `pool` that are not among `taken`, in their order.
pub open spec fn without(pool: Seq<EntryView>, taken: Seq<EntryView>) -> Seq<EntryView>
    decreases pool.len(),
{
    if pool.len() == 0 {
        seq![]
    } else if taken.contains(pool.last()) {
        without(pool.drop_last(), taken)
    } else {
        without(pool.drop_last(), taken).push(pool.last())
    }
}

/// The sum of the fees of `pool`.
pub open spec fn fee_total(pool: Seq<EntryView>) -> int
    decreases pool.len(),
{
    if pool.len() == 0 {
        0
    } else {
        fee_total(pool.drop_last()) + pool.last().1
    }
}

/// The best place is a place of the pool, and no entry has a higher fee
/// than the entry there; entries before it have a lower one.
pub proof fn lemma_best_place(pool: Seq<EntryView>)
    requires
        pool.len() > 0,
    ensures
        0 <= best_place(pool) < pool.len(),
        forall|i: int| 0 <= i < pool.len() ==> (#[trigger] pool[i]).1 <= pool[best_place(pool)].1,
        forall|i: int| 0 <= i < best_place(pool) ==> (#[trigger] pool[i]).1 < pool[best_place(pool)].1,
    decreases pool.len(),
{
    if pool.len() > 1 {
        lemma_best_place(pool.drop_last());
        let before = best_place(pool.drop_last());
        assert(pool.drop_last()[before] == pool[before]);
        assert forall|i: int| 0 <= i < pool.len() implies (#[trigger] pool[i]).1 <= pool[best_place(
            pool,
        )].1 by {
            if i < pool.len() - 1 {
                assert(pool.drop_last()[i] == pool[i]);
            }
        }
        assert forall|i: int| 0 <= i < best_place(pool) implies (#[trigger] pool[i]).1 < pool[best_place(
            pool,
        )].1 by {
            assert(pool.drop_last()[i] == pool[i]);
        }
    }
}

/// A copy of a pool.
pub fn clone_pool(pool: &Vec<(Vec<u8>, u64)>) -> (copy: Vec<(Vec<u8>, u64)>)
    ensures
        pool_view(copy@) == pool_view(pool@),
{
    let mut copy: Vec<(Vec<u8>, u64)> = Vec::new();
    let mut i: usize = 0;
    while i < pool.len()
        invariant
            i <= pool@.len(),
            copy@.len() == i,
            forall|j: int| 0 <= j < i ==> copy@[j].0@ == pool@[j].0@ && copy@[j].1 == pool@[j].1,
        decreases pool@.len() - i,
    {
        copy.push((copy_bytes(pool[i].0.as_slice()), pool[i].1));
        i += 1;
    }
    proof {
        assert(pool_view(copy@) =~= pool_view(pool@));
    }
    copy
}

/// The best place of a pool; an empty pool has none.
pub fn find_best(pool: &Vec<(Vec<u8>, u64)>) -> (found: Option<usize>)
    ensures
        found is Some == (pool@.len() > 0),
        found is Some ==> found.unwrap() == best_place(pool_view(pool@)) && found.unwrap() < pool@.len(),
{
    if pool.len() == 0 {
        return None;
    }
    let ghost view = pool_view(pool@);
    let mut place: usize = 0;
    let mut i: usize = 1;
    proof {
        assert(view.take(1).drop_last().len() == 0);
    }
    while i < pool.len()
        invariant
            1 <= i <= pool@.len(),
            view == pool_view(pool@),
            place < i,
            place == best_place(view.take(i as int)),
        decreases pool@.len() - i,
    {
        proof {
            let next = view.take(i + 1);
            assert(next.drop_last() == view.take(i as int));
            assert(next.last() == view[i as int]);
            assert(next[place as int] == view[place as int]);
        }
        if pool[i].1 > pool[place].1 {
            place = i;
        }
        i += 1;
    }
    proof {
        assert(view.take(i as int) == view);
    }
    Some(place)
}

/// The entries of `pool` that go into a block of at most `count` entries.
pub fn select_batch(pool: &Vec<(Vec<u8>, u64)>, count: usize) -> (batch: Vec<(Vec<u8>, u64)>)
    ensures
        pool_view(batch@) == select_top(pool_view(pool@), count as nat),
{
    let mut rest = clone_pool(pool);
    let mut batch: Vec<(Vec<u8>, u64)> = Vec::new();
    let mut taken: usize = 0;
    proof {
        assert(pool_view(batch@) =~= Seq::<EntryView>::empty());
    }
    while taken < count
        invariant
            taken <= count,
            pool_view(batch@) + select_top(pool_view(rest@), (count - taken) as nat) == select_top(
                pool_view(pool@),
                count as nat,
            ),
        ensures
            taken == count || rest@.len() == 0,
        decreases count - taken,
    {
        let place = match find_best(&rest) {
            Some(place) => place,
            None => {
                break ;
            },
        };
        let ghost before = pool_view(rest@);
        let ghost batch_before = pool_view(batch@);
        let entry = rest.remove(place);
        proof {
            assert(pool_view(rest@) =~= before.remove(place as int));
            assert((entry.0@, entry.1) == before[place as int]);
        }
        batch.push(entry);
        proof {
            assert(pool_view(batch@) =~= batch_before + seq![before[place as int]]);
            assert(batch_before + select_top(before, (count - taken) as nat) =~= pool_view(batch@)
                + select_top(pool_view(rest@), (count - taken - 1) as nat));
        }
        taken += 1;
    }
    proof {
        assert(select_top(pool_view(rest@), (count - taken) as nat) =~= Seq::<EntryView>::empty());
        assert(pool_view(batch@) + Seq::<EntryView>::empty() =~= pool_view(batch@));
    }
    batch
}

/// Whether `entry` is among the entries of `pool`.
pub fn pool_contains(pool: &Vec<(Vec<u8>, u64)>, entry: &(Vec<u8>, u64)) -> (found: bool)
    ensures
        found == pool_view(pool@).contains((entry.0@, entry.1)),
{
    let ghost view = pool_view(pool@);
    let mut i: usize = 0;
    while i < pool.len()
        invariant
            i <= pool@.len(),
            view == pool_view(pool@),
            forall|j: int| 0 <= j < i ==> view[j] != (entry.0@, entry.1),
        decreases pool@.len() - i,
    {
        if pool[i].1 == entry.1 && same_bytes(pool[i].0.as_slice(), entry.0.as_slice()) {
            proof {
                assert(view[i as int] == (entry.0@, entry.1));
            }
            return true;
        }
        i += 1;
    }
    false
}

/// The entries of `pool` that are not among `taken`, in their order.
pub fn pool_without(pool: &Vec<(Vec<u8>, u64)>, taken: &Vec<(Vec<u8>, u64)>) -> (rest: Vec<(Vec<u8>, u64)>)
    ensures
        pool_view(rest@) == without(pool_view(pool@), pool_view(taken@)),
{
    let ghost view = pool_view(pool@);
    let mut rest: Vec<(Vec<u8>, u64)> = Vec::new();
    let mut i: usize = 0;
    proof {
        assert(pool_view(rest@) =~= without(view.take(0), pool_view(taken@)));
    }
    while i < pool.len()
        invariant
            i <= pool@.len(),
            view == pool_view(pool@),
            pool_view(rest@) == without(view.take(i as int), pool_view(taken@)),
        decreases pool@.len() - i,
    {
        proof {
            let next = view.take(i + 1);
            assert(next.drop_last() == view.take(i as int));
            assert(next.last() == (pool@[i as int].0@, pool@[i as int].1));
        }
        if !pool_contains(taken, &pool[i]) {
            let ghost rest_before = pool_view(rest@);
            rest.push((copy_bytes(pool[i].0.as_slice()), pool[i].1));
            proof {
                assert(pool_view(rest@) =~= rest_before.push((pool@[i as int].0@, pool@[i as int].1)));
            }
        }
        i += 1;
    }
    proof {
        assert(view.take(i as int) == view);
    }
    rest
}

/// The sum of the fees of `pool`, if it fits in 64 bits.
pub fn sum_fees(pool: &Vec<(Vec<u8>, u64)>) -> (total: Option<u64>)
    ensures
        total is Some == (fee_total(pool_view(pool@)) <= u64::MAX),
        total is Some ==> total.unwrap() == fee_total(pool_view(pool@)),
{
    let ghost view = pool_view(pool@);
    let mut total: u128 = 0;
    let mut i: usize = 0;
    while i < pool.len()
        invariant
            i <= pool@.len(),
            view == pool_view(pool@),
            total == fee_total(view.take(i as int)),
            total <= i * 0xffff_ffff_ffff_ffff,
        decreases pool@.len() - i,
    {
        proof {
            let next = view.take(i + 1);
            assert(next.drop_last() == view.take(i as int));
            assert(next.last() == (pool@[i as int].0@, pool@[i as int].1));
        }
        total = total + pool[i].1 as u128;
        i += 1;
    }
    proof {
        assert(view.take(i as int) == view);
    }
    if total <= u64::MAX as u128 {
        Some(total as u64)
    } else {
        None
    }
}

} // verus!
