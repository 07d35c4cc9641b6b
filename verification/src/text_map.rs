//! Maps from texts to values, kept in the order of their keys.

use vstd::prelude::*;

use crate::text::{str_eq, str_precedes};

verus! {

/// The keys of a list of entries.
pub open spec fn entry_keys<V>(entries: Seq<(String, V)>) -> Seq<Seq<char>> {
    entries.map_values(|e: (String, V)| e.0@)
}

/// The map that a list of entries stands for.
pub open spec fn entry_map<V>(entries: Seq<(String, V)>) -> Map<Seq<char>, V> {
    Map::new(
        |k: Seq<char>| entry_keys(entries).contains(k),
        |k: Seq<char>| entries[entry_keys(entries).index_of(k)].1,
    )
}

/// A map from texts to values.
#[derive(Debug, PartialEq)]
pub struct TextMap<V> {
    entries: Vec<(String, V)>,
}

impl<V> View for TextMap<V> {
    type V = Map<Seq<char>, V>;

    closed spec fn view(&self) -> Map<Seq<char>, V> {
        entry_map(self.entries@)
    }
}

/// In a list with ascending keys each key leads to its own entry.
pub proof fn entry_at<V>(entries: Seq<(String, V)>, i: int)
    requires
        crate::text::ascending(entry_keys(entries)),
        0 <= i < entries.len(),
    ensures
        entry_map(entries).contains_key(entries[i].0@),
        entry_map(entries)[entries[i].0@] == entries[i].1,
{
    let keys = entry_keys(entries);
    assert(keys[i] == entries[i].0@);
    assert(keys.contains(keys[i]));
    let j = keys.index_of(keys[i]);
    if i < j {
        assert(crate::text::precedes(keys[i], keys[j]));
        crate::text::precedes_irreflexive(keys[i]);
    }
    if j < i {
        assert(crate::text::precedes(keys[j], keys[i]));
        crate::text::precedes_irreflexive(keys[i]);
    }
}

impl<V> TextMap<V> {
    #[verifier::type_invariant]
    spec fn in_key_order(self) -> bool {
        crate::text::ascending(entry_keys(self.entries@))
    }

    pub fn new() -> (r: TextMap<V>)
        ensures
            r@ == Map::<Seq<char>, V>::empty(),
    {
        let entries: Vec<(String, V)> = Vec::new();
        assert(entry_map(entries@) =~= Map::<Seq<char>, V>::empty());
        TextMap { entries }
    }

    /// The entries in the order of their keys.
    pub fn entries(&self) -> (r: &[(String, V)])
        ensures
            crate::text::ascending(entry_keys(r@)),
            entry_map(r@) == self@,
    {
        proof {
            use_type_invariant(self);
        }
        self.entries.as_slice()
    }

    /// The first place whose key does not come before `key`.
    fn place_of(&self, key: &str) -> (r: usize)
        ensures
            r <= self.entries@.len(),
            forall|i: int|
                0 <= i < r ==> crate::text::precedes(#[trigger] self.entries@[i].0@, key@),
            r < self.entries@.len() ==> !crate::text::precedes(self.entries@[r as int].0@, key@),
    {
        let mut k: usize = 0;
        while k < self.entries.len() && str_precedes(self.entries[k].0.as_str(), key)
            invariant
                k <= self.entries@.len(),
                forall|i: int|
                    0 <= i < k ==> crate::text::precedes(#[trigger] self.entries@[i].0@, key@),
            decreases self.entries@.len() - k,
        {
            k = k + 1;
        }
        k
    }

    /// The place of a key, where the map holds it.
    fn find(&self, key: &str) -> (r: Option<usize>)
        ensures
            match r {
                Some(i) => i < self.entries@.len() && self.entries@[i as int].0@ == key@
                    && self@.contains_key(key@) && self@[key@] == self.entries@[i as int].1,
                None => !self@.contains_key(key@),
            },
    {
        proof {
            use_type_invariant(self);
        }
        let k = self.place_of(key);
        if k < self.entries.len() && str_eq(self.entries[k].0.as_str(), key) {
            proof {
                entry_at(self.entries@, k as int);
            }
            return Some(k);
        }
        proof {
            let keys = entry_keys(self.entries@);
            if keys.contains(key@) {
                let i = choose|i: int| 0 <= i < keys.len() && keys[i] == key@;
                assert(self.entries@[i].0@ == key@);
                crate::text::precedes_irreflexive(key@);
                assert(i >= k);
                if i > k {
                    assert(crate::text::precedes(keys[k as int], keys[i]));
                }
            }
        }
        None
    }

    /// The value of a key.
    pub fn get(&self, key: &str) -> (r: Option<&V>)
        ensures
            match r {
                Some(v) => self@.contains_key(key@) && self@[key@] == *v,
                None => !self@.contains_key(key@),
            },
    {
        match self.find(key) {
            Some(i) => Some(&self.entries[i].1),
            None => None,
        }
    }

    pub fn contains_key(&self, key: &str) -> (r: bool)
        ensures
            r == self@.contains_key(key@),
    {
        self.find(key).is_some()
    }

    pub fn len(&self) -> (r: usize)
        ensures
            r == self@.len(),
            self@.dom().finite(),
    {
        proof {
            use_type_invariant(self);
            entries_count_keys(self.entries@);
        }
        self.entries.len()
    }

    /// Takes a key and its value out of the map.
    pub fn remove(&mut self, key: &str) -> (r: Option<V>)
        ensures
            final(self)@ == old(self)@.remove(key@),
            match r {
                Some(v) => old(self)@.contains_key(key@) && old(self)@[key@] == v,
                None => !old(self)@.contains_key(key@),
            },
    {
        match self.find(key) {
            None => {
                assert(self@ =~= old(self)@.remove(key@));
                None
            },
            Some(i) => {
                proof {
                    use_type_invariant(&*self);
                }
                let ghost before = self.entries@;
                let mut entries: Vec<(String, V)> = Vec::new();
                assert(crate::text::ascending(entry_keys(entries@)));
                std::mem::swap(&mut entries, &mut self.entries);
                let (_, value) = entries.remove(i);
                proof {
                    let after = entries@;
                    assert(after =~= before.remove(i as int));
                    removed_entry(before, i as int);
                }
                self.entries = entries;
                Some(value)
            },
        }
    }

    /// Sets the value of a key, in place of the one that it had.
    pub fn insert(&mut self, key: &str, value: V)
        ensures
            final(self)@ == old(self)@.insert(key@, value),
    {
        let _ = self.remove(key);
        let ghost without = self@;
        proof {
            use_type_invariant(&*self);
        }
        let k = self.place_of(key);
        let ghost before = self.entries@;
        let mut entries: Vec<(String, V)> = Vec::new();
        assert(crate::text::ascending(entry_keys(entries@)));
        std::mem::swap(&mut entries, &mut self.entries);
        let name = key.to_owned();
        let ghost entry = (name, value);
        entries.insert(k, (name, value));
        proof {
            let after = entries@;
            assert(after =~= before.insert(k as int, entry));
            assert(without == entry_map(before));
            assert(!without.contains_key(key@));
            inserted_entry(before, k as int, entry);
            assert(entry_map(after) =~= without.insert(key@, value));
            assert(without.insert(key@, value) =~= old(self)@.insert(key@, value));
        }
        self.entries = entries;
    }
}

proof fn removed_entry<V>(entries: Seq<(String, V)>, i: int)
    requires
        crate::text::ascending(entry_keys(entries)),
        0 <= i < entries.len(),
    ensures
        crate::text::ascending(entry_keys(entries.remove(i))),
        entry_map(entries.remove(i)) == entry_map(entries).remove(entries[i].0@),
{
    let after = entries.remove(i);
    let keys = entry_keys(entries);
    let rest = entry_keys(after);
    assert forall|a: int, b: int| 0 <= a < b < rest.len() implies crate::text::precedes(
        #[trigger] rest[a],
        #[trigger] rest[b],
    ) by {
        let x = if a < i {
            a
        } else {
            a + 1
        };
        let y = if b < i {
            b
        } else {
            b + 1
        };
        assert(rest[a] == keys[x] && rest[b] == keys[y]);
    }
    assert forall|k: Seq<char>| #[trigger]
        entry_map(after).contains_key(k) <==> entry_map(entries).remove(
            entries[i].0@,
        ).contains_key(k) by {
        if rest.contains(k) {
            let a = choose|a: int| 0 <= a < rest.len() && rest[a] == k;
            let x = if a < i {
                a
            } else {
                a + 1
            };
            assert(keys[x] == k);
            if k == keys[i] {
                crate::text::precedes_irreflexive(k);
                if x < i {
                    assert(crate::text::precedes(keys[x], keys[i]));
                } else {
                    assert(crate::text::precedes(keys[i], keys[x]));
                }
            }
        }
        if keys.contains(k) && k != keys[i] {
            let x = choose|x: int| 0 <= x < keys.len() && keys[x] == k;
            let a = if x < i {
                x
            } else {
                x - 1
            };
            assert(rest[a] == k);
        }
    }
    assert forall|k: Seq<char>| entry_map(after).contains_key(k) implies #[trigger] entry_map(
        after,
    )[k] == entry_map(entries)[k] by {
        let a = choose|a: int| 0 <= a < rest.len() && rest[a] == k;
        let x = if a < i {
            a
        } else {
            a + 1
        };
        entry_at(after, a);
        entry_at(entries, x);
        assert(after[a] == entries[x]);
    }
    assert(entry_map(after) =~= entry_map(entries).remove(entries[i].0@));
}

proof fn inserted_entry<V>(entries: Seq<(String, V)>, i: int, entry: (String, V))
    requires
        crate::text::ascending(entry_keys(entries)),
        0 <= i <= entries.len(),
        !entry_keys(entries).contains(entry.0@),
        forall|j: int|
            0 <= j < i ==> crate::text::precedes(#[trigger] entries[j].0@, entry.0@),
        i < entries.len() ==> !crate::text::precedes(entries[i].0@, entry.0@),
    ensures
        crate::text::ascending(entry_keys(entries.insert(i, entry))),
        entry_map(entries.insert(i, entry)) == entry_map(entries).insert(entry.0@, entry.1),
{
    let after = entries.insert(i, entry);
    let keys = entry_keys(entries);
    let more = entry_keys(after);
    assert(more =~= keys.insert(i, entry.0@));
    if i < entries.len() {
        assert(keys[i] == entries[i].0@);
        crate::text::precedes_total(keys[i], entry.0@);
    }
    assert forall|a: int, b: int| 0 <= a < b < more.len() implies crate::text::precedes(
        #[trigger] more[a],
        #[trigger] more[b],
    ) by {
        if a == i {
            if b - 1 > i {
                crate::text::precedes_transitive(entry.0@, keys[i], keys[b - 1]);
            }
        } else if b == i {
            assert(entries[a].0@ == keys[a]);
        } else {
            let x = if a < i {
                a
            } else {
                a - 1
            };
            let y = if b < i {
                b
            } else {
                b - 1
            };
            assert(more[a] == keys[x] && more[b] == keys[y]);
        }
    }
    assert forall|k: Seq<char>| #[trigger]
        entry_map(after).contains_key(k) <==> entry_map(entries).insert(
            entry.0@,
            entry.1,
        ).contains_key(k) by {
        assert(more[i] == entry.0@);
        if more.contains(k) && k != entry.0@ {
            let a = choose|a: int| 0 <= a < more.len() && more[a] == k;
            let x = if a < i {
                a
            } else {
                a - 1
            };
            assert(keys[x] == k);
        }
        if keys.contains(k) {
            let x = choose|x: int| 0 <= x < keys.len() && keys[x] == k;
            let a = if x < i {
                x
            } else {
                x + 1
            };
            assert(more[a] == k);
        }
    }
    assert forall|k: Seq<char>| entry_map(after).contains_key(k) implies #[trigger] entry_map(
        after,
    )[k] == entry_map(entries).insert(entry.0@, entry.1)[k] by {
        let a = choose|a: int| 0 <= a < more.len() && more[a] == k;
        entry_at(after, a);
        if a != i {
            let x = if a < i {
                a
            } else {
                a - 1
            };
            entry_at(entries, x);
            assert(after[a] == entries[x]);
            assert(keys[x] == k);
            assert(keys.contains(k));
        }
    }
    assert(entry_map(after) =~= entry_map(entries).insert(entry.0@, entry.1));
}

proof fn entries_count_keys<V>(entries: Seq<(String, V)>)
    requires
        crate::text::ascending(entry_keys(entries)),
    ensures
        entry_map(entries).dom().finite(),
        entry_map(entries).dom().len() == entries.len(),
{
    let keys = entry_keys(entries);
    assert(keys.no_duplicates()) by {
        assert forall|a: int, b: int| 0 <= a < keys.len() && 0 <= b < keys.len() && a != b implies
            keys[a] != keys[b] by {
            crate::text::precedes_irreflexive(keys[a]);
            if a < b {
                assert(crate::text::precedes(keys[a], keys[b]));
            } else {
                assert(crate::text::precedes(keys[b], keys[a]));
            }
        }
    }
    keys.unique_seq_to_set();
    assert(entry_map(entries).dom() =~= keys.to_set());
}

} // verus!
