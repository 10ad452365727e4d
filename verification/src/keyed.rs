//! A map keyed by text.

use vstd::prelude::*;

use crate::text::same;

verus! {

/// No two entries have the same key.
pub open spec fn distinct_keys<V>(entries: Seq<(String, V)>) -> bool {
    forall|i: int, j: int|
        0 <= i < j < entries.len() ==> #[trigger] entries[i].0@ != #[trigger] entries[j].0@
}

/// Whether some entry has the key `key`.
pub open spec fn has_key<V>(entries: Seq<(String, V)>, key: Seq<char>) -> bool {
    exists|i: int| 0 <= i < entries.len() && #[trigger] entries[i].0@ == key
}

/// The map that a list of entries stands for.
pub open spec fn entries_map<V: View>(entries: Seq<(String, V)>) -> Map<Seq<char>, V::V> {
    Map::new(
        |key: Seq<char>| has_key(entries, key),
        |key: Seq<char>|
            {
                let i = choose|i: int| 0 <= i < entries.len() && #[trigger] entries[i].0@ == key;
                entries[i].1@
            },
    )
}

/// What the entry at an index says of the map.
pub proof fn entry_in_map<V: View>(entries: Seq<(String, V)>, i: int)
    requires
        distinct_keys(entries),
        0 <= i < entries.len(),
    ensures
        entries_map(entries).contains_key(entries[i].0@),
        entries_map(entries)[entries[i].0@] == entries[i].1@,
{
    let key = entries[i].0@;
    assert(has_key(entries, key));
    let j = choose|j: int| 0 <= j < entries.len() && #[trigger] entries[j].0@ == key;
    if i < j {
        assert(entries[i].0@ != entries[j].0@);
    } else if j < i {
        assert(entries[j].0@ != entries[i].0@);
    }
}

/// The map has as many keys as the list has entries, and it is finite.
pub proof fn entries_map_len<V: View>(entries: Seq<(String, V)>)
    requires
        distinct_keys(entries),
    ensures
        entries_map(entries).dom().finite(),
        entries_map(entries).dom().len() == entries.len(),
{
    let keys = entries.map_values(|e: (String, V)| e.0@);
    assert(keys.no_duplicates()) by {
        assert forall|i: int, j: int|
            0 <= i < keys.len() && 0 <= j < keys.len() && i != j implies keys[i] != keys[j] by {
            if i < j {
                assert(entries[i].0@ != entries[j].0@);
            } else {
                assert(entries[j].0@ != entries[i].0@);
            }
        }
    }
    keys.unique_seq_to_set();
    assert(keys.to_set() =~= entries_map(entries).dom()) by {
        assert forall|k: Seq<char>| keys.to_set().contains(k) implies has_key(entries, k) by {
            let i = choose|i: int| 0 <= i < keys.len() && keys[i] == k;
            assert(entries[i].0@ == k);
        }
        assert forall|k: Seq<char>| has_key(entries, k) implies keys.to_set().contains(k) by {
            let i = choose|i: int| 0 <= i < entries.len() && #[trigger] entries[i].0@ == k;
            assert(keys[i] == k);
        }
    }
}

/// Values keyed by text, each key once.
pub struct KeyedMap<V> {
    entries: Vec<(String, V)>,
}

impl<V: View> View for KeyedMap<V> {
    type V = Map<Seq<char>, V::V>;

    closed spec fn view(&self) -> Map<Seq<char>, V::V> {
        entries_map(self.entries@)
    }
}

impl<V> KeyedMap<V> {
    #[verifier::type_invariant]
    spec fn no_key_twice(self) -> bool {
        distinct_keys(self.entries@)
    }
}

impl<V: View> KeyedMap<V> {
    /// The empty map.
    pub fn new() -> (r: Self)
        ensures
            r@ == Map::<Seq<char>, V::V>::empty(),
    {
        let r = KeyedMap { entries: Vec::new() };
        assert(r@ =~= Map::<Seq<char>, V::V>::empty());
        r
    }

    /// The map that holds the given entries.
    pub fn from_entries(entries: Vec<(String, V)>) -> (r: Self)
        requires
            distinct_keys(entries@),
        ensures
            r@ == entries_map(entries@),
    {
        KeyedMap { entries }
    }

    /// The entries, each key once, in no particular order.
    pub fn entries(&self) -> (r: &Vec<(String, V)>)
        ensures
            distinct_keys(r@),
            entries_map(r@) == self@,
    {
        proof {
            use_type_invariant(self);
        }
        &self.entries
    }

    /// The number of keys.
    pub fn len(&self) -> (r: usize)
        ensures
            self@.dom().finite(),
            r == self@.dom().len(),
    {
        proof {
            use_type_invariant(self);
            entries_map_len(self.entries@);
        }
        self.entries.len()
    }

    /// Where the key is in the list.
    fn position(&self, key: &str) -> (r: Option<usize>)
        ensures
            match r {
                Some(i) => {
                    &&& i < self.entries@.len()
                    &&& self.entries@[i as int].0@ == key@
                    &&& self@.contains_key(key@)
                    &&& self@[key@] == self.entries@[i as int].1@
                },
                None => !self@.contains_key(key@),
            },
    {
        proof {
            use_type_invariant(self);
        }
        let mut i: usize = 0;
        while i < self.entries.len()
            invariant
                i <= self.entries.len(),
                distinct_keys(self.entries@),
                forall|j: int| 0 <= j < i ==> #[trigger] self.entries@[j].0@ != key@,
            decreases self.entries.len() - i,
        {
            if same(self.entries[i].0.as_str(), key) {
                proof {
                    entry_in_map(self.entries@, i as int);
                }
                return Some(i);
            }
            i += 1;
        }
        None
    }

    /// Whether the key is there.
    pub fn contains_key(&self, key: &str) -> (r: bool)
        ensures
            r == self@.contains_key(key@),
    {
        self.position(key).is_some()
    }

    /// The value of a key.
    pub fn get(&self, key: &str) -> (r: Option<&V>)
        ensures
            match r {
                Some(value) => self@.contains_key(key@) && value@ == self@[key@],
                None => !self@.contains_key(key@),
            },
    {
        match self.position(key) {
            Some(i) => Some(&self.entries[i].1),
            None => None,
        }
    }

    /// Takes a key and its value out.
    pub fn remove(&mut self, key: &str) -> (r: Option<V>)
        ensures
            final(self)@ == old(self)@.remove(key@),
            match r {
                Some(value) => old(self)@.contains_key(key@) && value@ == old(self)@[key@],
                None => !old(self)@.contains_key(key@),
            },
    {
        proof {
            use_type_invariant(&*self);
        }
        match self.position(key) {
            Some(i) => {
                let mut entries: Vec<(String, V)> = Vec::new();
                std::mem::swap(&mut entries, &mut self.entries);
                let ghost before = entries@;
                let entry = entries.remove(i);
                proof {
                    let after = entries@;
                    assert(after =~= before.remove(i as int));
                    assert forall|a: int, b: int| 0 <= a < b < after.len() implies #[trigger] after[a].0@
                        != #[trigger] after[b].0@ by {
                        let x = if a < i { a } else { a + 1 };
                        let y = if b < i { b } else { b + 1 };
                        assert(before[x].0@ != before[y].0@);
                    }
                    lemma_removed(before, i as int);
                }
                self.entries = entries;
                Some(entry.1)
            },
            None => {
                assert(self@ =~= old(self)@.remove(key@));
                None
            },
        }
    }

    /// Sets the value of a key, and gives back the value that it had.
    pub fn insert(&mut self, key: String, value: V) -> (r: Option<V>)
        ensures
            final(self)@ == old(self)@.insert(key@, value@),
            match r {
                Some(former) => old(self)@.contains_key(key@) && former@ == old(self)@[key@],
                None => !old(self)@.contains_key(key@),
            },
    {
        let r = self.remove(key.as_str());
        proof {
            use_type_invariant(&*self);
        }
        let ghost k = key@;
        let ghost v = value@;
        assert(!self@.contains_key(k));
        let mut entries: Vec<(String, V)> = Vec::new();
        std::mem::swap(&mut entries, &mut self.entries);
        let ghost before = entries@;
        entries.push((key, value));
        proof {
            let after = entries@;
            assert forall|i: int| 0 <= i < before.len() implies #[trigger] before[i].0@ != k by {
                if before[i].0@ == k {
                    assert(has_key(before, k));
                }
            }
            assert forall|a: int, b: int| 0 <= a < b < after.len() implies #[trigger] after[a].0@
                != #[trigger] after[b].0@ by {
                assert(after[a] == before[a]);
                if b < before.len() {
                    assert(after[b] == before[b]);
                }
            }
            lemma_pushed(before, after.last());
            assert(after =~= before.push(after.last()));
        }
        self.entries = entries;
        assert(self@ =~= old(self)@.insert(k, v));
        r
    }
}

/// Taking an entry out of the list takes its key out of the map.
proof fn lemma_removed<V: View>(entries: Seq<(String, V)>, i: int)
    requires
        distinct_keys(entries),
        distinct_keys(entries.remove(i)),
        0 <= i < entries.len(),
    ensures
        entries_map(entries.remove(i)) == entries_map(entries).remove(entries[i].0@),
{
    let after = entries.remove(i);
    let k = entries[i].0@;
    let m = entries_map(entries);
    assert forall|x: Seq<char>| has_key(after, x) <==> has_key(entries, x) && x != k by {
        if has_key(after, x) {
            let j = choose|j: int| 0 <= j < after.len() && #[trigger] after[j].0@ == x;
            let b = if j < i { j } else { j + 1 };
            assert(entries[b].0@ == x);
            if b < i {
                assert(entries[b].0@ != entries[i].0@);
            } else {
                assert(entries[i].0@ != entries[b].0@);
            }
        }
        if has_key(entries, x) && x != k {
            let b = choose|b: int| 0 <= b < entries.len() && #[trigger] entries[b].0@ == x;
            let j = if b < i { b } else { b - 1 };
            assert(after[j].0@ == x);
        }
    }
    assert forall|x: Seq<char>| has_key(after, x) implies entries_map(after)[x] == m[x] by {
        let j = choose|j: int| 0 <= j < after.len() && #[trigger] after[j].0@ == x;
        let b = if j < i { j } else { j + 1 };
        entry_in_map(after, j);
        entry_in_map(entries, b);
        assert(entries[b].0@ == x);
    }
    assert(entries_map(after) =~= m.remove(k));
}

/// Adding an entry with a new key to the list adds it to the map.
proof fn lemma_pushed<V: View>(entries: Seq<(String, V)>, entry: (String, V))
    requires
        distinct_keys(entries),
        distinct_keys(entries.push(entry)),
    ensures
        entries_map(entries.push(entry)) == entries_map(entries).insert(entry.0@, entry.1@),
{
    let after = entries.push(entry);
    let m = entries_map(entries);
    assert forall|x: Seq<char>| has_key(after, x) <==> has_key(entries, x) || x == entry.0@ by {
        if has_key(entries, x) {
            let j = choose|j: int| 0 <= j < entries.len() && #[trigger] entries[j].0@ == x;
            assert(after[j].0@ == x);
        }
        if x == entry.0@ {
            assert(after[entries.len() as int].0@ == x);
        }
        if has_key(after, x) && x != entry.0@ {
            let j = choose|j: int| 0 <= j < after.len() && #[trigger] after[j].0@ == x;
            assert(entries[j].0@ == x);
        }
    }
    entry_in_map(after, entries.len() as int);
    assert forall|x: Seq<char>| has_key(entries, x) && x != entry.0@ implies entries_map(after)[x]
        == m[x] by {
        let j = choose|j: int| 0 <= j < entries.len() && #[trigger] entries[j].0@ == x;
        assert(after[j].0@ == x);
        entry_in_map(after, j);
        entry_in_map(entries, j);
    }
    assert(entries_map(after) =~= m.insert(entry.0@, entry.1@));
}

} // verus!
