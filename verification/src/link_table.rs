//! The cache of usable links: which link leads to which destination.

use vstd::prelude::*;

use crate::keyed::{
    has_key, key_index, keyed_by, lemma_key_index, lemma_key_index_is,
    lemma_unique_remove, lemma_unique_with_entry, lemma_value_with_entry, lemma_value_without_key,
    unique_keys, value_of, with_entry, without_key,
};
use crate::seqs::{lemma_first_where_is, lemma_first_where_none};
use crate::types::same_bytes;

verus! {

/// Links keyed by destination hash.
pub struct LinkTable {
    entries: Vec<([u8; 16], [u8; 16])>,
}

/// The mapping that a list of entries stands for.
pub open spec fn entry_map(entries: Seq<([u8; 16], [u8; 16])>) -> Map<[u8; 16], [u8; 16]> {
    Map::new(
        |dest: [u8; 16]| has_key(entries, dest),
        |dest: [u8; 16]| value_of(entries, dest)->0,
    )
}

/// The destinations of a mapping that a link leads to.
pub open spec fn destinations_of(
    links: Map<[u8; 16], [u8; 16]>,
    link_id: [u8; 16],
) -> Set<[u8; 16]> {
    Set::new(|dest: [u8; 16]| links.contains_key(dest) && links[dest] == link_id)
}

proof fn lemma_entry_map_len(entries: Seq<([u8; 16], [u8; 16])>)
    requires
        unique_keys(entries),
    ensures
        entry_map(entries).dom().finite(),
        entry_map(entries).dom().len() == entries.len(),
    decreases entries.len(),
{
    if entries.len() == 0 {
        assert forall|dest: [u8; 16]| !has_key(entries, dest) by {
            lemma_key_index(entries, dest);
        }
        assert(entry_map(entries).dom() =~= Set::empty());
    } else {
        let last = entries.len() - 1;
        let rest = entries.remove(last);
        let key = entries[last].0;
        lemma_unique_remove(entries, last);
        lemma_entry_map_len(rest);
        lemma_key_index_is(entries, last);
        assert(without_key(entries, key) == rest);
        assert forall|dest: [u8; 16]| has_key(rest, dest) == (dest != key && has_key(entries, dest)) by {
            lemma_value_without_key(entries, key, dest);
        }
        assert(entry_map(rest).dom() =~= entry_map(entries).dom().remove(key));
        assert(entry_map(entries).dom() =~= entry_map(rest).dom().insert(key));
    }
}

impl View for LinkTable {
    type V = Map<[u8; 16], [u8; 16]>;

    closed spec fn view(&self) -> Map<[u8; 16], [u8; 16]> {
        entry_map(self.entries@)
    }
}

impl LinkTable {
    /// Whether each destination occurs once.
    pub closed spec fn wf(self) -> bool {
        unique_keys(self.entries@)
    }

    /// An empty table.
    pub fn new() -> (table: Self)
        ensures
            table.wf(),
            table@ == Map::<[u8; 16], [u8; 16]>::empty(),
    {
        let table = LinkTable { entries: Vec::new() };
        assert(table@ =~= Map::<[u8; 16], [u8; 16]>::empty()) by {
            assert forall|dest: [u8; 16]| !has_key(table.entries@, dest) by {
                lemma_key_index(table.entries@, dest);
            }
        }
        table
    }

    /// How many destinations have a link.
    pub fn len(&self) -> (n: usize)
        requires
            self.wf(),
        ensures
            self@.dom().finite(),
            n == self@.dom().len(),
    {
        proof {
            lemma_entry_map_len(self.entries@);
        }
        self.entries.len()
    }

    fn position(&self, dest: &[u8; 16]) -> (at: Option<usize>)
        ensures
            match at {
                Some(i) => key_index(self.entries@, *dest) == Some(i as int) && i
                    < self.entries.len(),
                None => key_index(self.entries@, *dest) is None,
            },
    {
        let mut i: usize = 0;
        while i < self.entries.len()
            invariant
                i <= self.entries.len(),
                forall|j: int| 0 <= j < i ==> (#[trigger] self.entries@[j]).0 != *dest,
            decreases self.entries.len() - i,
        {
            if same_bytes(&self.entries[i].0, dest) {
                proof {
                    lemma_first_where_is(self.entries@, keyed_by(*dest), i as int);
                }
                return Some(i);
            }
            i += 1;
        }
        proof {
            lemma_first_where_none(self.entries@, keyed_by(*dest));
        }
        None
    }

    /// The link that leads to a destination.
    pub fn get(&self, dest: &[u8; 16]) -> (link_id: Option<[u8; 16]>)
        ensures
            match link_id {
                Some(link_id) => self@.contains_key(*dest) && self@[*dest] == link_id,
                None => !self@.contains_key(*dest),
            },
    {
        match self.position(dest) {
            Some(i) => Some(self.entries[i].1),
            None => None,
        }
    }

    /// Whether some link leads to a destination.
    pub fn contains(&self, dest: &[u8; 16]) -> (found: bool)
        ensures
            found == self@.contains_key(*dest),
    {
        self.position(dest).is_some()
    }

    /// Makes a link the one that leads to a destination.
    pub fn insert(&mut self, dest: [u8; 16], link_id: [u8; 16])
        requires
            old(self).wf(),
        ensures
            final(self).wf(),
            final(self)@ == old(self)@.insert(dest, link_id),
    {
        let ghost before = self.entries@;
        proof {
            lemma_unique_with_entry(before, dest, link_id);
        }
        match self.position(&dest) {
            Some(i) => {
                self.entries.set(i, (dest, link_id));
            },
            None => {
                self.entries.push((dest, link_id));
            },
        }
        assert(self.entries@ =~= with_entry(before, dest, link_id));
        assert(self@ =~= old(self)@.insert(dest, link_id)) by {
            assert forall|other: [u8; 16]|
                #![trigger has_key(self.entries@, other)]
                value_of(self.entries@, other) == if other == dest {
                    Some(link_id)
                } else {
                    value_of(before, other)
                } by {
                lemma_value_with_entry(before, dest, link_id, other);
            }
        }
    }

    /// Forgets the link that leads to a destination.
    pub fn remove(&mut self, dest: &[u8; 16]) -> (link_id: Option<[u8; 16]>)
        requires
            old(self).wf(),
        ensures
            final(self).wf(),
            final(self)@ == old(self)@.remove(*dest),
            match link_id {
                Some(link_id) => old(self)@.contains_key(*dest) && old(self)@[*dest] == link_id,
                None => !old(self)@.contains_key(*dest),
            },
    {
        let ghost before = self.entries@;
        let removed = match self.position(dest) {
            Some(i) => {
                proof {
                    lemma_unique_remove(before, i as int);
                }
                Some(self.entries.remove(i).1)
            },
            None => None,
        };
        assert(self.entries@ =~= without_key(before, *dest));
        assert(self@ =~= old(self)@.remove(*dest)) by {
            assert forall|other: [u8; 16]|
                #![trigger has_key(self.entries@, other)]
                value_of(self.entries@, other) == if other == *dest {
                    None
                } else {
                    value_of(before, other)
                } by {
                lemma_value_without_key(before, *dest, other);
            }
        }
        removed
    }

    /// Forgets a link, whatever destinations it leads to.
    pub fn remove_link(&mut self, link_id: &[u8; 16])
        requires
            old(self).wf(),
        ensures
            final(self).wf(),
            final(self)@ == old(self)@.remove_keys(destinations_of(old(self)@, *link_id)),
    {
        let ghost gone = destinations_of(self@, *link_id);
        let mut i: usize = 0;
        while i < self.entries.len()
            invariant
                self.wf(),
                i <= self.entries.len(),
                gone == destinations_of(old(self)@, *link_id),
                forall|j: int| 0 <= j < i ==> (#[trigger] self.entries@[j]).1 != *link_id,
                self@.remove_keys(gone) == old(self)@.remove_keys(gone),
                forall|dest: [u8; 16]|
                    #[trigger] self@.contains_key(dest) ==> old(self)@.contains_key(dest)
                        && old(self)@[dest] == self@[dest],
            decreases self.entries.len() - i,
        {
            let ghost before = self.entries@;
            let ghost here = self@;
            proof {
                lemma_key_index_is(before, i as int);
            }
            if same_bytes(&self.entries[i].1, link_id) {
                let dest = self.entries[i].0;
                assert(here.contains_key(dest) && here[dest] == *link_id);
                assert(gone.contains(dest));
                proof {
                    lemma_unique_remove(before, i as int);
                }
                let _ = self.entries.remove(i);
                assert(self.entries@ =~= without_key(before, dest));
                assert(self@ =~= here.remove(dest)) by {
                    assert forall|other: [u8; 16]|
                        #![trigger has_key(self.entries@, other)]
                        value_of(self.entries@, other) == if other == dest {
                            None
                        } else {
                            value_of(before, other)
                        } by {
                        lemma_value_without_key(before, dest, other);
                    }
                }
                assert(self@.remove_keys(gone) =~= here.remove_keys(gone));
            } else {
                i += 1;
            }
        }
        assert(self@ =~= old(self)@.remove_keys(gone)) by {
            assert forall|dest: [u8; 16]| #[trigger] self@.contains_key(dest) implies !gone.contains(dest) by {
                lemma_key_index(self.entries@, dest);
            }
            assert(self@.remove_keys(gone) =~= self@);
        }
    }
}

} // verus!
