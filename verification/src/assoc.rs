//! A map kept as a list of entries.
//!
//! An entry that comes later in the list hides earlier entries with the same
//! key, so putting a value under a key is one push. Keys are compared by what
//! they stand for, their view.

use vstd::prelude::*;
use crate::encoding::same_bytes;

verus! {

/// A key: a value that can be compared for equality of what it stands for.
pub trait Key: View + Sized {
    /// Whether `self` and `other` stand for the same key.
    fn same(&self, other: &Self) -> (same: bool)
        ensures
            same == (self@ == other@),
    ;
}

impl Key for Vec<u8> {
    fn same(&self, other: &Self) -> (same: bool) {
        same_bytes(self.as_slice(), other.as_slice())
    }
}

/// The map that a list of entries stands for: for each key the value of the
/// last entry with that key.
pub open spec fn map_of<K: View, V>(entries: Seq<(K, V)>) -> Map<K::V, V>
    decreases entries.len(),
{
    if entries.len() == 0 {
        Map::empty()
    } else {
        map_of(entries.drop_last()).insert(entries.last().0@, entries.last().1)
    }
}

/// A list without an entry for `key` stands for a map without `key`.
pub proof fn lemma_absent_key<K: View, V>(entries: Seq<(K, V)>, key: K::V)
    requires
        forall|i: int| 0 <= i < entries.len() ==> (#[trigger] entries[i]).0@ != key,
    ensures
        !map_of(entries).contains_key(key),
    decreases entries.len(),
{
    if entries.len() > 0 {
        lemma_absent_key(entries.drop_last(), key);
    }
}

/// Taking one entry for `key` out of a list changes the map at `key` only.
pub proof fn lemma_remove_entry<K: View, V>(entries: Seq<(K, V)>, i: int)
    requires
        0 <= i < entries.len(),
    ensures
        map_of(entries.remove(i)).remove(entries[i].0@) == map_of(entries).remove(entries[i].0@),
    decreases entries.len(),
{
    let key = entries[i].0@;
    if i == entries.len() - 1 {
        assert(entries.remove(i) == entries.drop_last());
        assert(map_of(entries.drop_last()).remove(key) =~= map_of(entries).remove(key));
    } else {
        lemma_remove_entry(entries.drop_last(), i);
        assert(entries.drop_last()[i] == entries[i]);
        assert(entries.remove(i).drop_last() == entries.drop_last().remove(i));
        assert(entries.remove(i).last() == entries.last());
        let shorter = map_of(entries.drop_last().remove(i));
        let longer = map_of(entries.drop_last());
        let last = entries.last();
        assert(map_of(entries.remove(i)) == shorter.insert(last.0@, last.1));
        assert(map_of(entries) == longer.insert(last.0@, last.1));
        let left = shorter.insert(last.0@, last.1).remove(key);
        let right = longer.insert(last.0@, last.1).remove(key);
        assert forall|other: K::V| #[trigger] left.contains_key(other) == right.contains_key(other)
            && (left.contains_key(other) ==> left[other] == right[other]) by {
            if other != key && other != last.0@ {
                assert(shorter.remove(key).contains_key(other) == shorter.contains_key(other));
                assert(longer.remove(key).contains_key(other) == longer.contains_key(other));
                if shorter.contains_key(other) {
                    assert(shorter.remove(key)[other] == shorter[other]);
                    assert(longer.remove(key)[other] == longer[other]);
                }
            }
        }
        assert(left =~= right);
    }
}

/// A map from keys to values, kept as a list of entries in the order in
/// which they were put.
#[derive(Debug)]
pub struct AssocList<K, V> {
    pub entries: Vec<(K, V)>,
}

impl<K: Key, V> View for AssocList<K, V> {
    type V = Map<K::V, V>;

    open spec fn view(&self) -> Map<K::V, V> {
        map_of(self.entries@)
    }
}

impl<K: Key, V> AssocList<K, V> {
    /// The empty map.
    pub fn new() -> (list: Self)
        ensures
            list@ == Map::<K::V, V>::empty(),
            list.entries@.len() == 0,
    {
        AssocList { entries: Vec::new() }
    }

    /// Puts `value` under `key`, in place of what was there.
    pub fn insert(&mut self, key: K, value: V)
        ensures
            final(self)@ == old(self)@.insert(key@, value),
            final(self).entries@ == old(self).entries@.push((key, value)),
    {
        self.entries.push((key, value));
        proof {
            assert(self.entries@.drop_last() == old(self).entries@);
        }
    }

    /// The value under `key`, if there is one.
    pub fn get(&self, key: &K) -> (value: Option<&V>)
        ensures
            value is Some == self@.contains_key(key@),
            value is Some ==> *value.unwrap() == self@[key@],
    {
        let mut i: usize = self.entries.len();
        proof {
            assert(self.entries@.take(i as int) == self.entries@);
        }
        while i > 0
            invariant
                i <= self.entries@.len(),
                self@.contains_key(key@) == map_of(self.entries@.take(i as int)).contains_key(
                    key@,
                ),
                self@.contains_key(key@) ==> self@[key@] == map_of(self.entries@.take(i as int))[key@],
            decreases i,
        {
            proof {
                assert(self.entries@.take(i as int).drop_last() == self.entries@.take(i - 1));
                assert(self.entries@.take(i as int).last() == self.entries@[i - 1]);
            }
            i -= 1;
            if self.entries[i].0.same(key) {
                return Some(&self.entries[i].1);
            }
        }
        None
    }

    /// Whether there is a value under `key`.
    pub fn contains_key(&self, key: &K) -> (found: bool)
        ensures
            found == self@.contains_key(key@),
    {
        self.get(key).is_some()
    }

    /// Takes away what is under `key`.
    pub fn remove(&mut self, key: &K)
        ensures
            final(self)@ == old(self)@.remove(key@),
    {
        let mut i: usize = 0;
        while i < self.entries.len()
            invariant
                i <= self.entries@.len(),
                map_of(self.entries@).remove(key@) == map_of(old(self).entries@).remove(key@),
                forall|j: int| 0 <= j < i ==> (#[trigger] self.entries@[j]).0@ != key@,
            decreases self.entries@.len() - i,
        {
            if self.entries[i].0.same(key) {
                proof {
                    lemma_remove_entry(self.entries@, i as int);
                }
                let _ = self.entries.remove(i);
            } else {
                i += 1;
            }
        }
        proof {
            lemma_absent_key(self.entries@, key@);
            assert(map_of(self.entries@).remove(key@) =~= map_of(self.entries@));
        }
    }

    /// Takes away every entry.
    pub fn clear(&mut self)
        ensures
            final(self)@ == Map::<K::V, V>::empty(),
            final(self).entries@.len() == 0,
    {
        self.entries.clear();
    }
}

} // verus!
