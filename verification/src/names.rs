//! A small map from names to values, kept in insertion order.

use crate::text::same_text;
use vstd::prelude::*;

verus! {

/// A finite map keyed by name.  No name occurs twice.
pub struct NameMap<V> {
    entries: Vec<(String, V)>,
}

/// Whether some entry of `entries` carries the name `key`.
pub open spec fn has_name<V>(entries: Seq<(String, V)>, key: Seq<char>) -> bool {
    exists|i: int| 0 <= i < entries.len() && (#[trigger] entries[i]).0@ == key
}

/// The position of an entry of `entries` that carries the name `key`.
pub open spec fn slot_of<V>(entries: Seq<(String, V)>, key: Seq<char>) -> int {
    choose|i: int| 0 <= i < entries.len() && (#[trigger] entries[i]).0@ == key
}

/// Whether no two entries of `entries` carry the same name.
pub open spec fn distinct_names<V>(entries: Seq<(String, V)>) -> bool {
    forall|i: int, j: int|
        0 <= i < j < entries.len() ==> (#[trigger] entries[i]).0@ != (#[trigger] entries[j]).0@
}

/// The map a list of distinctly named entries denotes.
pub open spec fn as_map<V>(entries: Seq<(String, V)>) -> Map<Seq<char>, V> {
    Map::new(|key: Seq<char>| has_name(entries, key), |key: Seq<char>| entries[slot_of(entries, key)].1)
}

proof fn lemma_as_map_at<V>(entries: Seq<(String, V)>, i: int)
    requires
        distinct_names(entries),
        0 <= i < entries.len(),
    ensures
        as_map(entries).contains_key(entries[i].0@),
        as_map(entries)[entries[i].0@] == entries[i].1,
        slot_of(entries, entries[i].0@) == i,
{
    let key = entries[i].0@;
    assert(has_name(entries, key));
    let j = slot_of(entries, key);
    if j != i {
        if j < i {
            assert(entries[j].0@ != entries[i].0@);
        } else {
            assert(entries[i].0@ != entries[j].0@);
        }
    }
}

proof fn lemma_as_map_push<V>(entries: Seq<(String, V)>, key: String, value: V)
    requires
        distinct_names(entries),
        !has_name(entries, key@),
    ensures
        distinct_names(entries.push((key, value))),
        as_map(entries.push((key, value))) == as_map(entries).insert(key@, value),
{
    let after = entries.push((key, value));
    assert forall|i: int, j: int| 0 <= i < j < after.len() implies (#[trigger] after[i]).0@ != (
    #[trigger] after[j]).0@ by {
        if j < entries.len() {
            assert(after[i] == entries[i] && after[j] == entries[j]);
        } else {
            assert(after[i] == entries[i]);
            assert(after[j].0@ == key@);
        }
    }
    assert forall|k: Seq<char>| has_name(after, k) <==> (k == key@ || has_name(entries, k)) by {
        if has_name(after, k) {
            let i = slot_of(after, k);
            if i < entries.len() {
                assert(after[i] == entries[i]);
            }
        }
        if k == key@ {
            assert(after[entries.len() as int].0@ == k);
        }
        if has_name(entries, k) {
            let i = slot_of(entries, k);
            assert(after[i] == entries[i]);
        }
    }
    assert forall|k: Seq<char>| has_name(after, k) implies as_map(after)[k] == as_map(
        entries,
    ).insert(key@, value)[k] by {
        let i = slot_of(after, k);
        lemma_as_map_at(after, i);
        if i < entries.len() {
            assert(after[i] == entries[i]);
            lemma_as_map_at(entries, i);
        }
    }
    assert(as_map(after) =~= as_map(entries).insert(key@, value));
}

proof fn lemma_as_map_remove<V>(entries: Seq<(String, V)>, i: int)
    requires
        distinct_names(entries),
        0 <= i < entries.len(),
    ensures
        distinct_names(entries.remove(i)),
        as_map(entries.remove(i)) == as_map(entries).remove(entries[i].0@),
{
    let after = entries.remove(i);
    let key = entries[i].0@;
    assert forall|a: int| 0 <= a < after.len() implies #[trigger] after[a] == entries[if a < i {
        a
    } else {
        a + 1
    }] by {}
    assert forall|a: int, b: int| 0 <= a < b < after.len() implies (#[trigger] after[a]).0@ != (
    #[trigger] after[b]).0@ by {
        let a2 = if a < i { a } else { a + 1 };
        let b2 = if b < i { b } else { b + 1 };
        assert(after[a] == entries[a2] && after[b] == entries[b2]);
        assert(entries[a2].0@ != entries[b2].0@);
    }
    assert forall|k: Seq<char>| has_name(after, k) <==> (k != key && has_name(entries, k)) by {
        if has_name(after, k) {
            let a = slot_of(after, k);
            let a2 = if a < i { a } else { a + 1 };
            assert(after[a] == entries[a2]);
            assert(entries[a2].0@ == k);
            if a2 < i {
                assert(entries[a2].0@ != entries[i].0@);
            } else {
                assert(entries[i].0@ != entries[a2].0@);
            }
        }
        if k != key && has_name(entries, k) {
            let e = slot_of(entries, k);
            let a = if e < i { e } else { e - 1 };
            assert(after[a] == entries[e]);
        }
    }
    assert forall|k: Seq<char>| has_name(after, k) implies as_map(after)[k] == as_map(
        entries,
    ).remove(key)[k] by {
        let a = slot_of(after, k);
        let a2 = if a < i { a } else { a + 1 };
        assert(after[a] == entries[a2]);
        lemma_as_map_at(after, a);
        lemma_as_map_at(entries, a2);
    }
    assert(as_map(after) =~= as_map(entries).remove(key));
}

impl<V> NameMap<V> {
    #[verifier::type_invariant]
    spec fn names_are_distinct(self) -> bool {
        distinct_names(self.entries@)
    }

    /// The map from each stored name to its value.
    pub closed spec fn view(&self) -> Map<Seq<char>, V> {
        as_map(self.entries@)
    }

    /// An empty map.
    pub fn new() -> (map: Self)
        ensures
            map@ == Map::<Seq<char>, V>::empty(),
    {
        let map = NameMap { entries: Vec::new() };
        assert(as_map(map.entries@) =~= Map::<Seq<char>, V>::empty());
        map
    }

    /// Where `key` is stored, if it is.
    fn position(&self, key: &str) -> (found: Option<usize>)
        ensures
            match found {
                Some(i) => i < self.entries@.len() && self.entries@[i as int].0@ == key@,
                None => !has_name(self.entries@, key@),
            },
    {
        let mut i: usize = 0;
        while i < self.entries.len()
            invariant
                i <= self.entries@.len(),
                forall|j: int| 0 <= j < i ==> (#[trigger] self.entries@[j]).0@ != key@,
            decreases self.entries@.len() - i,
        {
            if same_text(self.entries[i].0.as_str(), key) {
                return Some(i);
            }
            i += 1;
        }
        None
    }

    /// Whether `key` has a value.
    pub fn contains(&self, key: &str) -> (found: bool)
        ensures
            found == self@.contains_key(key@),
    {
        self.position(key).is_some()
    }

    /// The value stored under `key`.
    pub fn get(&self, key: &str) -> (found: Option<&V>)
        ensures
            found == if self@.contains_key(key@) {
                Some(&self@[key@])
            } else {
                None
            },
    {
        proof {
            use_type_invariant(&*self);
        }
        match self.position(key) {
            Some(i) => {
                proof {
                    lemma_as_map_at(self.entries@, i as int);
                }
                Some(&self.entries[i].1)
            },
            None => None,
        }
    }

    /// Stores `value` under `key` and hands back the value it replaces.
    pub fn insert(&mut self, key: String, value: V) -> (replaced: Option<V>)
        ensures
            final(self)@ == old(self)@.insert(key@, value),
            replaced == if old(self)@.contains_key(key@) {
                Some(old(self)@[key@])
            } else {
                None
            },
    {
        proof {
            use_type_invariant(&*self);
        }
        let found = self.position(key.as_str());
        let mut holder = NameMap { entries: Vec::new() };
        std::mem::swap(&mut holder, self);
        let mut entries = holder.entries;
        let ghost before = entries@;
        let replaced = match found {
            Some(i) => {
                proof {
                    lemma_as_map_at(before, i as int);
                    lemma_as_map_remove(before, i as int);
                }
                let old_entry = entries.remove(i);
                Some(old_entry.1)
            },
            None => None,
        };
        proof {
            assert(!has_name(entries@, key@)) by {
                if found is Some {
                    assert(!as_map(entries@).contains_key(key@));
                }
            }
            lemma_as_map_push(entries@, key, value);
            assert(as_map(before).remove(key@).insert(key@, value) =~= as_map(before).insert(
                key@,
                value,
            ));
            if found is None {
                assert(as_map(before).remove(key@) =~= as_map(before));
            }
        }
        entries.push((key, value));
        *self = NameMap { entries };
        replaced
    }

    /// Removes `key` and hands back the value it had.
    pub fn remove(&mut self, key: &str) -> (removed: Option<V>)
        ensures
            final(self)@ == old(self)@.remove(key@),
            removed == if old(self)@.contains_key(key@) {
                Some(old(self)@[key@])
            } else {
                None
            },
    {
        proof {
            use_type_invariant(&*self);
        }
        match self.position(key) {
            Some(i) => {
                let mut holder = NameMap { entries: Vec::new() };
                std::mem::swap(&mut holder, self);
                let mut entries = holder.entries;
                proof {
                    lemma_as_map_at(entries@, i as int);
                    lemma_as_map_remove(entries@, i as int);
                }
                let entry = entries.remove(i);
                *self = NameMap { entries };
                Some(entry.1)
            },
            None => {
                assert(self@.remove(key@) =~= self@);
                None
            },
        }
    }

    /// Removes every entry.
    pub fn clear(&mut self)
        ensures
            final(self)@ == Map::<Seq<char>, V>::empty(),
    {
        let empty = NameMap { entries: Vec::new() };
        assert(as_map(empty.entries@) =~= Map::<Seq<char>, V>::empty());
        *self = empty;
    }
}

} // verus!
