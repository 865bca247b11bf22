//! Maps from strings to strings, kept as the sequence of their entries.
use vstd::prelude::*;

verus! {

/// An entry as a mathematical value.
pub type Pair = (Seq<char>, Seq<char>);

/// The position of the first entry of `p` with the key `k`.
pub open spec fn key_index(p: Seq<Pair>, k: Seq<char>) -> Option<int>
    decreases p.len(),
{
    if p.len() == 0 {
        None
    } else if p[0].0 == k {
        Some(0)
    } else {
        match key_index(p.drop_first(), k) {
            Some(i) => Some(i + 1),
            None => None,
        }
    }
}

pub proof fn lemma_key_index(p: Seq<Pair>, k: Seq<char>)
    ensures
        match key_index(p, k) {
            Some(i) => 0 <= i < p.len() && p[i].0 == k && forall|j: int| 0 <= j < i ==> p[j].0 != k,
            None => forall|j: int| 0 <= j < p.len() ==> p[j].0 != k,
        },
    decreases p.len(),
{
    if p.len() > 0 && p[0].0 != k {
        lemma_key_index(p.drop_first(), k);
        assert(forall|j: int| 0 < j < p.len() ==> p[j] == p.drop_first()[j - 1]);
    }
}

/// The value that the entries `p` give to the key `k`.
pub open spec fn lookup(p: Seq<Pair>, k: Seq<char>) -> Option<Seq<char>> {
    match key_index(p, k) {
        Some(i) => Some(p[i].1),
        None => None,
    }
}

/// The entries `p` after giving the key `k` the value `v`: the entry of
/// `k` changes in place, or a new entry goes at the end.
pub open spec fn pairs_insert(p: Seq<Pair>, k: Seq<char>, v: Seq<char>) -> Seq<Pair> {
    match key_index(p, k) {
        Some(i) => p.update(i, (k, v)),
        None => p.push((k, v)),
    }
}

/// No two entries of `p` have the same key.
pub open spec fn keys_distinct(p: Seq<Pair>) -> bool {
    forall|i: int, j: int| 0 <= i < j < p.len() ==> p[i].0 != p[j].0
}

/// A key reads back the value that was last given to it, and the other
/// keys keep theirs.
pub proof fn law_lookup_after_insert(p: Seq<Pair>, k: Seq<char>, v: Seq<char>, other: Seq<char>)
    ensures
        lookup(pairs_insert(p, k, v), k) == Some(v),
        other != k ==> lookup(pairs_insert(p, k, v), other) == lookup(p, other),
{
    lemma_key_index(p, k);
    lemma_key_index(p, other);
    let q = pairs_insert(p, k, v);
    lemma_key_index(q, k);
    lemma_key_index(q, other);
    match key_index(p, k) {
        Some(i) => {
            assert(q[i].0 == k);
        },
        None => {
            assert(q[p.len() as int].0 == k);
        },
    }
    if other != k {
        match key_index(p, other) {
            Some(i) => {
                assert(q[i].0 == other);
            },
            None => {},
        }
    }
}

/// Inserting keeps the keys distinct.
pub proof fn law_insert_keeps_keys_distinct(p: Seq<Pair>, k: Seq<char>, v: Seq<char>)
    requires
        keys_distinct(p),
    ensures
        keys_distinct(pairs_insert(p, k, v)),
{
    lemma_key_index(p, k);
}

/// The map that the entries `p` stand for: each key with the value of its
/// first entry.
pub open spec fn pairs_view(p: Seq<Pair>) -> Map<Seq<char>, Seq<char>> {
    Map::new(|k: Seq<char>| lookup(p, k) is Some, |k: Seq<char>| lookup(p, k).unwrap())
}

/// The entries `p` without the entry of `k`.
pub open spec fn pairs_remove(p: Seq<Pair>, k: Seq<char>) -> Seq<Pair> {
    match key_index(p, k) {
        Some(i) => p.remove(i),
        None => p,
    }
}

/// Giving a key a value changes the map of the entries as `Map::insert`
/// does.
pub proof fn law_insert_view(p: Seq<Pair>, k: Seq<char>, v: Seq<char>)
    ensures
        pairs_view(pairs_insert(p, k, v)) == pairs_view(p).insert(k, v),
{
    assert forall|o: Seq<char>| #[trigger] lookup(pairs_insert(p, k, v), o) == (if o == k {
        Some(v)
    } else {
        lookup(p, o)
    }) by {
        law_lookup_after_insert(p, k, v, o);
    }
    assert(pairs_view(pairs_insert(p, k, v)) =~= pairs_view(p).insert(k, v));
}

/// Removing the entry of a key changes the map of entries with distinct
/// keys as `Map::remove` does, and keeps the keys distinct.
pub proof fn law_remove_view(p: Seq<Pair>, k: Seq<char>)
    requires
        keys_distinct(p),
    ensures
        pairs_view(pairs_remove(p, k)) == pairs_view(p).remove(k),
        keys_distinct(pairs_remove(p, k)),
{
    lemma_key_index(p, k);
    let q = pairs_remove(p, k);
    assert forall|o: Seq<char>| #[trigger] lookup(q, o) == (if o == k { None } else { lookup(p, o) }) by {
        lemma_key_index(p, o);
        lemma_key_index(q, o);
        if let Some(i) = key_index(p, k) {
            if o == k {
                if let Some(j) = key_index(q, o) {
                    if j < i {
                        assert(q[j] == p[j]);
                    } else {
                        assert(q[j] == p[j + 1]);
                    }
                }
            } else {
                match key_index(p, o) {
                    Some(m) => {
                        if m < i {
                            assert(q[m] == p[m]);
                            if let Some(j) = key_index(q, o) {
                                if j < m {
                                    assert(q[j] == p[j]);
                                }
                            }
                        } else {
                            assert(q[m - 1] == p[m]);
                            if let Some(j) = key_index(q, o) {
                                if j < i {
                                    assert(q[j] == p[j]);
                                } else if j < m - 1 {
                                    assert(q[j] == p[j + 1]);
                                }
                            }
                        }
                    },
                    None => {
                        if let Some(j) = key_index(q, o) {
                            if j < i {
                                assert(q[j] == p[j]);
                            } else {
                                assert(q[j] == p[j + 1]);
                            }
                        }
                    },
                }
            }
        }
    }
    assert(pairs_view(q) =~= pairs_view(p).remove(k));
}

/// A map from strings to strings, in the order in which its keys came.
pub struct StringMap {
    entries: Vec<(String, String)>,
}

impl StringMap {
    /// The entries, in order.
    pub closed spec fn pairs(&self) -> Seq<Pair> {
        self.entries@.map_values(|e: (String, String)| (e.0@, e.1@))
    }

    /// A map without entries.
    pub fn new() -> (m: StringMap)
        ensures
            m.pairs() == Seq::<Pair>::empty(),
    {
        StringMap { entries: Vec::new() }
    }

    fn position(&self, key: &String) -> (i: Option<usize>)
        ensures
            match i {
                Some(k) => key_index(self.pairs(), key@) == Some(k as int) && k < self.entries@.len(),
                None => key_index(self.pairs(), key@) is None,
            },
    {
        proof {
            lemma_key_index(self.pairs(), key@);
        }
        let mut i: usize = 0;
        while i < self.entries.len()
            invariant
                i <= self.entries@.len(),
                forall|j: int| 0 <= j < i ==> self.pairs()[j].0 != key@,
                match key_index(self.pairs(), key@) {
                    Some(m) => 0 <= m < self.pairs().len() && self.pairs()[m].0 == key@
                        && forall|j: int| 0 <= j < m ==> self.pairs()[j].0 != key@,
                    None => forall|j: int| 0 <= j < self.pairs().len() ==> self.pairs()[j].0 != key@,
                },
            decreases self.entries@.len() - i,
        {
            assert(self.pairs()[i as int].0 == self.entries@[i as int].0@);
            if self.entries[i].0 == *key {
                return Some(i);
            }
            i = i + 1;
        }
        None
    }

    /// Gives `key` the value `value`.
    pub fn insert(&mut self, key: String, value: String)
        ensures
            final(self).pairs() == pairs_insert(old(self).pairs(), key@, value@),
    {
        match self.position(&key) {
            Some(i) => {
                let ghost before = self.pairs();
                self.entries.set(i, (key, value));
                assert(self.pairs() =~= before.update(i as int, (key@, value@)));
            },
            None => {
                let ghost before = self.pairs();
                self.entries.push((key, value));
                assert(self.pairs() =~= before.push((key@, value@)));
            },
        }
    }

    /// The value of `key`.
    pub fn get(&self, key: &String) -> (value: Option<&str>)
        ensures
            match value {
                Some(v) => lookup(self.pairs(), key@) == Some(v@),
                None => lookup(self.pairs(), key@) is None,
            },
    {
        match self.position(key) {
            Some(i) => Some(self.entries[i].1.as_str()),
            None => None,
        }
    }

    /// Removes the entry of `key`; tells whether there was one.
    pub fn remove(&mut self, key: &String) -> (found: bool)
        ensures
            final(self).pairs() == pairs_remove(old(self).pairs(), key@),
            found == (key_index(old(self).pairs(), key@) is Some),
    {
        match self.position(key) {
            Some(i) => {
                let ghost before = self.pairs();
                self.entries.remove(i);
                assert(self.pairs() =~= before.remove(i as int));
                true
            },
            None => false,
        }
    }

    /// The value of `key`, as the string stored.
    pub fn get_string(&self, key: &String) -> (value: Option<&String>)
        ensures
            match value {
                Some(v) => lookup(self.pairs(), key@) == Some(v@),
                None => lookup(self.pairs(), key@) is None,
            },
    {
        match self.position(key) {
            Some(i) => Some(&self.entries[i].1),
            None => None,
        }
    }

    /// The number of entries.
    pub fn len(&self) -> (n: usize)
        ensures
            n == self.pairs().len(),
    {
        self.entries.len()
    }

    /// The entry at position `i`.
    pub fn entry(&self, i: usize) -> (e: (&str, &str))
        requires
            i < self.pairs().len(),
        ensures
            e.0@ == self.pairs()[i as int].0,
            e.1@ == self.pairs()[i as int].1,
    {
        (self.entries[i].0.as_str(), self.entries[i].1.as_str())
    }
}

} // verus!
