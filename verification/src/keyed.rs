//! Small tables that keep their entries in the order of insertion and hold each
//! key once.

use vstd::prelude::*;

use crate::seqs::{
    first_where, lemma_first_where, lemma_first_where_is, lemma_first_where_none,
};
use crate::types::same_bytes;

verus! {

/// A key that can be told apart from another by looking at it.
pub trait Key: Copy {
    /// Whether two keys are the same.
    fn same(&self, other: &Self) -> (same: bool)
        ensures
            same == (*self == *other),
    ;
}

impl Key for [u8; 16] {
    fn same(&self, other: &Self) -> (same: bool) {
        same_bytes(self, other)
    }
}

/// What an entry under a key has.
pub open spec fn keyed_by<K, V>(key: K) -> spec_fn((K, V)) -> bool {
    |entry: (K, V)| entry.0 == key
}

/// Where a key stands in a list of entries.
pub open spec fn key_index<K, V>(entries: Seq<(K, V)>, key: K) -> Option<int> {
    first_where(entries, keyed_by(key))
}

/// Whether a key has an entry.
pub open spec fn has_key<K, V>(entries: Seq<(K, V)>, key: K) -> bool {
    key_index(entries, key) is Some
}

/// What is entered under a key.
pub open spec fn value_of<K, V>(entries: Seq<(K, V)>, key: K) -> Option<V> {
    match key_index(entries, key) {
        Some(i) => Some(entries[i].1),
        None => None,
    }
}

/// Whether each key occurs once.
pub open spec fn unique_keys<K, V>(entries: Seq<(K, V)>) -> bool {
    forall|i: int, j: int|
        0 <= i < j < entries.len() ==> (#[trigger] entries[i]).0 != (#[trigger] entries[j]).0
}

/// The entries with a value entered under a key: in place of the old one where
/// there was one, behind all others where there was none.
pub open spec fn with_entry<K, V>(entries: Seq<(K, V)>, key: K, value: V) -> Seq<(K, V)> {
    match key_index(entries, key) {
        Some(i) => entries.update(i, (key, value)),
        None => entries.push((key, value)),
    }
}

/// The entries without the one of a key.
pub open spec fn without_key<K, V>(entries: Seq<(K, V)>, key: K) -> Seq<(K, V)> {
    match key_index(entries, key) {
        Some(i) => entries.remove(i),
        None => entries,
    }
}

/// What [`key_index`] says of the entries.
pub proof fn lemma_key_index<K, V>(entries: Seq<(K, V)>, key: K)
    ensures
        match key_index(entries, key) {
            Some(i) => {
                &&& 0 <= i < entries.len()
                &&& entries[i].0 == key
                &&& forall|j: int| 0 <= j < i ==> (#[trigger] entries[j]).0 != key
            },
            None => forall|j: int| 0 <= j < entries.len() ==> (#[trigger] entries[j]).0 != key,
        },
{
    lemma_first_where(entries, keyed_by(key));
}

/// What is entered under a key once one more entry is made.
pub proof fn lemma_value_push<K, V>(entries: Seq<(K, V)>, entry: (K, V), key: K)
    ensures
        value_of(entries.push(entry), key) == if has_key(entries, key) {
            value_of(entries, key)
        } else if entry.0 == key {
            Some(entry.1)
        } else {
            None
        },
{
    let after = entries.push(entry);
    let last = entries.len() as int;
    lemma_key_index(entries, key);
    assert forall|j: int| 0 <= j < last implies #[trigger] after[j] == entries[j] by {}
    if let Some(i) = key_index(entries, key) {
        lemma_first_where_is(after, keyed_by(key), i);
    } else if entry.0 == key {
        lemma_first_where_is(after, keyed_by(key), last);
    } else {
        lemma_first_where_none(after, keyed_by(key));
    }
}

/// In a list of unique keys, where a key stands is where it is found.
pub proof fn lemma_key_index_is<K, V>(entries: Seq<(K, V)>, i: int)
    requires
        unique_keys(entries),
        0 <= i < entries.len(),
    ensures
        key_index(entries, entries[i].0) == Some(i),
{
    lemma_first_where_is(entries, keyed_by(entries[i].0), i);
}

/// Keys stay unique when an entry is made.
pub proof fn lemma_unique_with_entry<K, V>(entries: Seq<(K, V)>, key: K, value: V)
    requires
        unique_keys(entries),
    ensures
        unique_keys(with_entry(entries, key, value)),
{
    lemma_key_index(entries, key);
}

/// Keys stay unique when an entry is taken out.
pub proof fn lemma_unique_remove<K, V>(entries: Seq<(K, V)>, i: int)
    requires
        unique_keys(entries),
        0 <= i < entries.len(),
    ensures
        unique_keys(entries.remove(i)),
{
    let rest = entries.remove(i);
    assert forall|a: int, b: int| 0 <= a < b < rest.len() implies (#[trigger] rest[a]).0 != (
    #[trigger] rest[b]).0 by {
        let a1 = if a < i { a } else { a + 1 };
        let b1 = if b < i { b } else { b + 1 };
        assert(rest[a] == entries[a1]);
        assert(rest[b] == entries[b1]);
    }
}

/// Every kept entry was there before.
proof fn lemma_filter_source<K, V>(entries: Seq<(K, V)>, p: spec_fn((K, V)) -> bool, i: int)
    requires
        0 <= i < entries.filter(p).len(),
    ensures
        exists|j: int| 0 <= j < entries.len() && entries[j] == entries.filter(p)[i],
    decreases entries.len(),
{
    reveal(Seq::filter);
    let rest = entries.drop_last();
    if i < rest.filter(p).len() {
        lemma_filter_source(rest, p, i);
        let j = choose|j: int| 0 <= j < rest.len() && rest[j] == rest.filter(p)[i];
        assert(entries[j] == entries.filter(p)[i]);
    } else {
        assert(entries[entries.len() - 1] == entries.filter(p)[i]);
    }
}

/// Keys stay unique when only some entries are kept.
pub proof fn lemma_unique_filter<K, V>(entries: Seq<(K, V)>, p: spec_fn((K, V)) -> bool)
    requires
        unique_keys(entries),
    ensures
        unique_keys(entries.filter(p)),
    decreases entries.len(),
{
    reveal(Seq::filter);
    if entries.len() > 0 {
        let rest = entries.drop_last();
        let last = entries.last();
        lemma_unique_filter(rest, p);
        if p(last) {
            let kept = entries.filter(p);
            assert(kept =~= rest.filter(p).push(last));
            assert forall|i: int, j: int| 0 <= i < j < kept.len() implies (#[trigger] kept[i]).0 != (
            #[trigger] kept[j]).0 by {
                if j == kept.len() - 1 {
                    lemma_filter_source(rest, p, i);
                    let k = choose|k: int| 0 <= k < rest.len() && rest[k] == rest.filter(p)[i];
                    assert(entries[k].0 != entries[entries.len() - 1].0);
                } else {
                    assert(rest.filter(p)[i].0 != rest.filter(p)[j].0);
                }
            }
        }
    }
}

/// What is entered under a key afterwards.
pub proof fn lemma_value_with_entry<K, V>(entries: Seq<(K, V)>, key: K, value: V, other: K)
    requires
        unique_keys(entries),
    ensures
        value_of(with_entry(entries, key, value), other) == if other == key {
            Some(value)
        } else {
            value_of(entries, other)
        },
{
    let after = with_entry(entries, key, value);
    lemma_unique_with_entry(entries, key, value);
    lemma_key_index(entries, key);
    lemma_key_index(entries, other);
    lemma_key_index(after, other);
    if other == key {
        let at = match key_index(entries, key) {
            Some(i) => i,
            None => entries.len() as int,
        };
        assert(after[at] == (key, value));
        lemma_key_index_is(after, at);
    } else {
        match key_index(entries, other) {
            Some(i) => {
                assert(after[i] == entries[i]);
                lemma_key_index_is(after, i);
            },
            None => {
                assert forall|j: int| 0 <= j < after.len() implies (#[trigger] after[j]).0
                    != other by {
                    if j < entries.len() {
                        let _ = entries[j];
                    }
                }
            },
        }
    }
}

/// What is left under a key after another, or the key itself, was taken out.
pub proof fn lemma_value_without_key<K, V>(entries: Seq<(K, V)>, key: K, other: K)
    requires
        unique_keys(entries),
    ensures
        value_of(without_key(entries, key), other) == if other == key {
            None
        } else {
            value_of(entries, other)
        },
{
    let after = without_key(entries, key);
    lemma_key_index(entries, key);
    lemma_key_index(entries, other);
    lemma_key_index(after, other);
    match key_index(entries, key) {
        None => {},
        Some(k) => {
            lemma_unique_remove(entries, k);
            if other == key {
                assert forall|j: int| 0 <= j < after.len() implies (#[trigger] after[j]).0
                    != other by {
                    let j1 = if j < k { j } else { j + 1 };
                    assert(after[j] == entries[j1]);
                    if j1 < k {
                        assert(entries[j1].0 != entries[k].0);
                    } else {
                        assert(entries[k].0 != entries[j1].0);
                    }
                }
            } else {
                match key_index(entries, other) {
                    Some(i) => {
                        let i1 = if i < k { i } else { i - 1 };
                        assert(after[i1] == entries[i]);
                        lemma_key_index_is(after, i1);
                    },
                    None => {
                        assert forall|j: int| 0 <= j < after.len() implies (#[trigger] after[j]).0
                            != other by {
                            let j1 = if j < k { j } else { j + 1 };
                            assert(after[j] == entries[j1]);
                        }
                    },
                }
            }
        },
    }
}

/// A table that holds each key once, in the order of insertion.
pub struct KeyedList<K, V> {
    pub entries: Vec<(K, V)>,
}

/// The contents of a list of entries.
pub open spec fn entry_views<K, V: View>(entries: Seq<(K, V)>) -> Seq<(K, V::V)> {
    entries.map_values(|entry: (K, V)| (entry.0, entry.1@))
}

impl<K, V: View> View for KeyedList<K, V> {
    type V = Seq<(K, V::V)>;

    open spec fn view(&self) -> Seq<(K, V::V)> {
        entry_views(self.entries@)
    }
}

impl<K: Key, V: View> KeyedList<K, V> {
    /// Whether each key occurs once.
    pub open spec fn wf(self) -> bool {
        unique_keys(self@)
    }

    /// An empty table.
    pub fn new() -> (list: Self)
        ensures
            list.wf(),
            list@ == Seq::<(K, V::V)>::empty(),
    {
        let list = KeyedList { entries: Vec::new() };
        assert(list@ =~= Seq::<(K, V::V)>::empty());
        list
    }

    /// How many entries there are.
    pub fn len(&self) -> (n: usize)
        ensures
            n == self@.len(),
    {
        self.entries.len()
    }

    /// Where a key stands.
    pub fn position(&self, key: &K) -> (at: Option<usize>)
        ensures
            match at {
                Some(i) => key_index(self@, *key) == Some(i as int) && i < self.entries.len(),
                None => key_index(self@, *key) is None,
            },
    {
        let mut i: usize = 0;
        while i < self.entries.len()
            invariant
                i <= self.entries.len(),
                forall|j: int| 0 <= j < i ==> (#[trigger] self@[j]).0 != *key,
            decreases self.entries.len() - i,
        {
            if self.entries[i].0.same(key) {
                proof {
                    lemma_first_where_is(self@, keyed_by(*key), i as int);
                }
                return Some(i);
            }
            i += 1;
        }
        proof {
            lemma_first_where_none(self@, keyed_by(*key));
        }
        None
    }

    /// What is entered under a key.
    pub fn get(&self, key: &K) -> (value: Option<&V>)
        ensures
            match value {
                Some(value) => value_of(self@, *key) == Some(value@),
                None => value_of(self@, *key) is None,
            },
    {
        match self.position(key) {
            Some(i) => Some(&self.entries[i].1),
            None => None,
        }
    }

    /// Enters a value under a key, in place of the old one if there was one.
    pub fn insert(&mut self, key: K, value: V)
        requires
            old(self).wf(),
        ensures
            final(self).wf(),
            final(self)@ == with_entry(old(self)@, key, value@),
    {
        proof {
            lemma_unique_with_entry(self@, key, value@);
        }
        match self.position(&key) {
            Some(i) => {
                proof {
                    lemma_key_index(self@, key);
                }
                self.entries.set(i, (key, value));
            },
            None => {
                self.entries.push((key, value));
            },
        }
        assert(self@ =~= with_entry(old(self)@, key, value@));
    }

    /// Takes the entry at a place out.
    pub fn remove_at(&mut self, i: usize) -> (entry: (K, V))
        requires
            old(self).wf(),
            i < old(self).entries.len(),
        ensures
            final(self).wf(),
            final(self)@ == old(self)@.remove(i as int),
            entry == old(self).entries@[i as int],
            (entry.0, entry.1@) == old(self)@[i as int],
    {
        proof {
            lemma_unique_remove(self@, i as int);
        }
        let entry = self.entries.remove(i);
        assert(self@ =~= old(self)@.remove(i as int));
        entry
    }

    /// Takes the entry of a key out.
    pub fn remove(&mut self, key: &K) -> (value: Option<V>)
        requires
            old(self).wf(),
        ensures
            final(self).wf(),
            final(self)@ == without_key(old(self)@, *key),
            match value {
                Some(value) => value_of(old(self)@, *key) == Some(value@),
                None => value_of(old(self)@, *key) is None,
            },
    {
        match self.position(key) {
            Some(i) => Some(self.remove_at(i).1),
            None => None,
        }
    }
}

} // verus!
