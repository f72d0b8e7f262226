//! A small map from text to text that keeps its entries in the order in
//! which their keys first came.

use vstd::prelude::*;

verus! {

/// One key with its value.
pub struct Entry {
    pub key: String,
    pub value: String,
}

/// A map from keys to values. No key occurs twice; a key that is set again
/// keeps its place and takes the new value.
pub struct Settings {
    entries: Vec<Entry>,
}

/// Whether `entries` holds `key` at index `i`.
pub open spec fn key_at(entries: Seq<Entry>, i: int, key: Seq<char>) -> bool {
    0 <= i < entries.len() && entries[i].key@ == key
}

/// Whether no key occurs twice in `entries`.
pub open spec fn distinct_keys(entries: Seq<Entry>) -> bool {
    forall|i: int, j: int|
        0 <= i < j < entries.len() ==> (#[trigger] entries[i]).key@ != (#[trigger] entries[j]).key@
}

/// The map that `entries` stands for.
pub open spec fn map_of(entries: Seq<Entry>) -> Map<Seq<char>, Seq<char>> {
    Map::new(
        |key: Seq<char>| exists|i: int| key_at(entries, i, key),
        |key: Seq<char>| entries[choose|i: int| key_at(entries, i, key)].value@,
    )
}

impl View for Settings {
    type V = Map<Seq<char>, Seq<char>>;

    closed spec fn view(&self) -> Map<Seq<char>, Seq<char>> {
        map_of(self.entries@)
    }
}

impl Settings {
    /// The invariant of the representation: no key occurs twice.
    pub closed spec fn well_formed(&self) -> bool {
        distinct_keys(self.entries@)
    }

    /// The entries in the order in which their keys first came.
    pub closed spec fn entries(&self) -> Seq<Entry> {
        self.entries@
    }

    /// A map without entries.
    pub fn new() -> (settings: Settings)
        ensures
            settings.well_formed(),
            settings@ == Map::<Seq<char>, Seq<char>>::empty(),
            settings.entries().len() == 0,
    {
        let settings = Settings { entries: Vec::new() };
        assert(settings@ =~= Map::<Seq<char>, Seq<char>>::empty());
        settings
    }

    /// How many keys the map holds.
    pub fn len(&self) -> (n: usize)
        ensures
            n == self.entries().len(),
    {
        self.entries.len()
    }

    /// The index at which `key` stands, if the map holds it.
    fn position(&self, key: &str) -> (found: Option<usize>)
        ensures
            match found {
                Some(i) => key_at(self.entries@, i as int, key@),
                None => forall|i: int| !key_at(self.entries@, i, key@),
            },
    {
        let wanted = String::from_str(key);
        let mut i: usize = 0;
        while i < self.entries.len()
            invariant
                i <= self.entries.len(),
                wanted@ == key@,
                forall|k: int| 0 <= k < i ==> !key_at(self.entries@, k, key@),
            decreases self.entries.len() - i,
        {
            if self.entries[i].key == wanted {
                return Some(i);
            }
            i += 1;
        }
        None
    }

    /// The value under `key`, if the map holds the key.
    pub fn get(&self, key: &str) -> (value: Option<&String>)
        requires
            self.well_formed(),
        ensures
            match value {
                Some(v) => self@.contains_key(key@) && self@[key@] == v@,
                None => !self@.contains_key(key@),
            },
    {
        match self.position(key) {
            Some(i) => {
                proof {
                    let chosen = choose|k: int| key_at(self.entries@, k, key@);
                    assert(key_at(self.entries@, chosen, key@));
                    assert(chosen == i);
                }
                Some(&self.entries[i].value)
            },
            None => None,
        }
    }

    /// Sets the value under `key`, and returns the value that stood there
    /// before, if the map held the key.
    pub fn insert(&mut self, key: String, value: String) -> (previous: Option<String>)
        requires
            old(self).well_formed(),
        ensures
            final(self).well_formed(),
            final(self)@ == old(self)@.insert(key@, value@),
            match previous {
                Some(v) => old(self)@.contains_key(key@) && old(self)@[key@] == v@,
                None => !old(self)@.contains_key(key@),
            },
            old(self)@.contains_key(key@) ==> final(self).entries().len() == old(
                self,
            ).entries().len(),
            !old(self)@.contains_key(key@) ==> final(self).entries() == old(self).entries().push(
                Entry { key, value },
            ),
    {
        let ghost before = self.entries@;
        let ghost k = key@;
        let ghost v = value@;
        match self.position(key.as_str()) {
            Some(i) => {
                proof {
                    let chosen = choose|j: int| key_at(before, j, k);
                    assert(key_at(before, chosen, k));
                    assert(chosen == i);
                }
                let mut entry = Entry { key, value };
                let ghost added = entry;
                let slot = &mut self.entries[i];
                core::mem::swap(slot, &mut entry);
                proof {
                    let after = self.entries@;
                    assert(after == before.update(i as int, added));
                    assert forall|a: int, b: int| 0 <= a < b < after.len() implies (
                    #[trigger] after[a]).key@ != (#[trigger] after[b]).key@ by {
                        assert(before[a].key@ != before[b].key@);
                    }
                    assert forall|q: Seq<char>| #[trigger]
                        map_of(after).contains_key(q) == map_of(before).insert(k, v).contains_key(
                            q,
                        ) by {
                        if map_of(after).contains_key(q) {
                            let j = choose|j: int| key_at(after, j, q);
                            assert(key_at(before, j, q));
                        }
                        if map_of(before).contains_key(q) {
                            let j = choose|j: int| key_at(before, j, q);
                            assert(key_at(after, j, q));
                        }
                        if q == k {
                            assert(key_at(after, i as int, q));
                        }
                    }
                    assert forall|q: Seq<char>| map_of(after).contains_key(q) implies #[trigger]
                        map_of(after)[q] == map_of(before).insert(k, v)[q] by {
                        let j = choose|j: int| key_at(after, j, q);
                        assert(key_at(after, j, q));
                        if q == k {
                            assert(j == i);
                        } else {
                            assert(key_at(before, j, q));
                            let j0 = choose|j0: int| key_at(before, j0, q);
                            assert(key_at(before, j0, q));
                            assert(j0 == j);
                        }
                    }
                    assert(map_of(after) =~= map_of(before).insert(k, v));
                }
                Some(entry.value)
            },
            None => {
                let entry = Entry { key, value };
                self.entries.push(entry);
                proof {
                    let after = self.entries@;
                    let n = before.len() as int;
                    assert forall|a: int, b: int| 0 <= a < b < after.len() implies (
                    #[trigger] after[a]).key@ != (#[trigger] after[b]).key@ by {
                        if b == n {
                            assert(!key_at(before, a, k));
                        } else {
                            assert(before[a].key@ != before[b].key@);
                        }
                    }
                    assert forall|q: Seq<char>| #[trigger]
                        map_of(after).contains_key(q) == map_of(before).insert(k, v).contains_key(
                            q,
                        ) by {
                        if map_of(after).contains_key(q) {
                            let j = choose|j: int| key_at(after, j, q);
                            if j < n {
                                assert(key_at(before, j, q));
                            }
                        }
                        if map_of(before).contains_key(q) {
                            let j = choose|j: int| key_at(before, j, q);
                            assert(key_at(after, j, q));
                        }
                        if q == k {
                            assert(key_at(after, n, q));
                        }
                    }
                    assert forall|q: Seq<char>| map_of(after).contains_key(q) implies #[trigger]
                        map_of(after)[q] == map_of(before).insert(k, v)[q] by {
                        let j = choose|j: int| key_at(after, j, q);
                        assert(key_at(after, j, q));
                        if q == k {
                            assert(key_at(after, n, q));
                            assert(j == n);
                        } else {
                            assert(key_at(before, j, q));
                            let j0 = choose|j0: int| key_at(before, j0, q);
                            assert(key_at(before, j0, q));
                            assert(j0 == j);
                        }
                    }
                    assert(map_of(after) =~= map_of(before).insert(k, v));
                }
                None
            },
        }
    }

    /// The entry at index `i`, counting in the order in which the keys
    /// first came.
    pub fn entry(&self, i: usize) -> (entry: &Entry)
        requires
            i < self.entries().len(),
        ensures
            *entry == self.entries()[i as int],
    {
        &self.entries[i]
    }
}

} // verus!
