//! Per-book data keyed by the book's encoded path.

use vstd::prelude::*;

verus! {

/// A map from book paths to values: a list of entries in which no path
/// occurs twice.
#[derive(Debug)]
pub struct PathMap<V> {
    entries: Vec<(String, V)>,
}

pub open spec fn unique_keys<V>(s: Seq<(String, V)>) -> bool {
    forall|i: int, j: int|
        0 <= i < s.len() && 0 <= j < s.len() && #[trigger] s[i].0@ == #[trigger] s[j].0@ ==> i == j
}

pub open spec fn has_key<V>(s: Seq<(String, V)>, k: Seq<char>) -> bool {
    exists|i: int| 0 <= i < s.len() && #[trigger] s[i].0@ == k
}

pub open spec fn key_index<V>(s: Seq<(String, V)>, k: Seq<char>) -> int {
    choose|i: int| 0 <= i < s.len() && #[trigger] s[i].0@ == k
}

/// The map an entry list stands for.
pub open spec fn entries_map<V>(s: Seq<(String, V)>) -> Map<Seq<char>, V> {
    Map::new(|k: Seq<char>| has_key(s, k), |k: Seq<char>| s[key_index(s, k)].1)
}

proof fn lemma_entry_value<V>(s: Seq<(String, V)>, i: int)
    requires
        unique_keys(s),
        0 <= i < s.len(),
    ensures
        entries_map(s).contains_key(s[i].0@),
        entries_map(s)[s[i].0@] == s[i].1,
{
    assert(has_key(s, s[i].0@));
    let j = key_index(s, s[i].0@);
    assert(s[j].0@ == s[i].0@);
}

/// An entry list without repeated keys stands for `m` when both have the same
/// keys and each entry's value is `m`'s.
proof fn lemma_entries_map_eq<V>(s: Seq<(String, V)>, m: Map<Seq<char>, V>)
    requires
        unique_keys(s),
        forall|q: Seq<char>| #[trigger] m.contains_key(q) <==> has_key(s, q),
        forall|i: int| 0 <= i < s.len() ==> m[#[trigger] s[i].0@] == s[i].1,
    ensures
        entries_map(s) == m,
{
    assert forall|q: Seq<char>| #[trigger] m.contains_key(q) implies entries_map(s)[q] == m[q] by {
        let j = key_index(s, q);
        lemma_entry_value(s, j);
    }
    assert(entries_map(s) =~= m);
}

fn find_key<V>(entries: &Vec<(String, V)>, key: &String) -> (r: Option<usize>)
    ensures
        r matches Some(i) ==> i < entries@.len() && entries@[i as int].0@ == key@,
        r is None ==> !has_key(entries@, key@),
{
    let mut i: usize = 0;
    while i < entries.len()
        invariant
            i <= entries@.len(),
            forall|j: int| 0 <= j < i ==> #[trigger] entries@[j].0@ != key@,
        decreases entries.len() - i,
    {
        if entries[i].0 == *key {
            return Some(i);
        }
        i += 1;
    }
    None
}

fn insert_entry<V>(entries: &mut Vec<(String, V)>, key: String, value: V)
    requires
        unique_keys(old(entries)@),
    ensures
        unique_keys(final(entries)@),
        entries_map(final(entries)@) == entries_map(old(entries)@).insert(key@, value),
{
    let ghost k = key@;
    let ghost v = value;
    let ghost o = entries@;
    let ghost m = entries_map(o).insert(k, v);
    match find_key(entries, &key) {
        Some(i) => {
            entries.set(i, (key, value));
            proof {
                let s = entries@;
                assert forall|a: int, b: int|
                    0 <= a < s.len() && 0 <= b < s.len() && #[trigger] s[a].0@ == #[trigger] s[b].0@ implies a
                    == b by {
                    assert(o[a].0@ == s[a].0@ || a == i);
                    assert(o[b].0@ == s[b].0@ || b == i);
                    if a != i && b != i {
                        assert(o[a].0@ == o[b].0@);
                    }
                }
                assert forall|q: Seq<char>| #[trigger] m.contains_key(q) <==> has_key(s, q) by {
                    if has_key(s, q) {
                        let j = choose|j: int| 0 <= j < s.len() && #[trigger] s[j].0@ == q;
                        assert(o[j].0@ == q);
                        lemma_entry_value(o, j);
                    }
                    if m.contains_key(q) && q != k {
                        let j = choose|j: int| 0 <= j < o.len() && #[trigger] o[j].0@ == q;
                        assert(s[j].0@ == q);
                    }
                    if q == k {
                        assert(s[i as int].0@ == q);
                    }
                }
                assert forall|j: int| 0 <= j < s.len() implies m[#[trigger] s[j].0@] == s[j].1 by {
                    if j != i {
                        assert(s[j] == o[j]);
                        lemma_entry_value(o, j);
                    }
                }
                lemma_entries_map_eq(s, m);
            }
        },
        None => {
            entries.push((key, value));
            proof {
                let s = entries@;
                assert forall|a: int, b: int|
                    0 <= a < s.len() && 0 <= b < s.len() && #[trigger] s[a].0@ == #[trigger] s[b].0@ implies a
                    == b by {
                    if a < o.len() && b < o.len() {
                        assert(o[a].0@ == o[b].0@);
                    } else if a < o.len() {
                        assert(o[a].0@ == k);
                    } else if b < o.len() {
                        assert(o[b].0@ == k);
                    }
                }
                assert forall|q: Seq<char>| #[trigger] m.contains_key(q) <==> has_key(s, q) by {
                    if has_key(s, q) && q != k {
                        let j = choose|j: int| 0 <= j < s.len() && #[trigger] s[j].0@ == q;
                        assert(o[j].0@ == q);
                    }
                    if m.contains_key(q) && q != k {
                        let j = choose|j: int| 0 <= j < o.len() && #[trigger] o[j].0@ == q;
                        assert(s[j].0@ == q);
                    }
                    if q == k {
                        assert(s[o.len() as int].0@ == q);
                    }
                }
                assert forall|j: int| 0 <= j < s.len() implies m[#[trigger] s[j].0@] == s[j].1 by {
                    if j < o.len() {
                        assert(s[j] == o[j]);
                        lemma_entry_value(o, j);
                    }
                }
                lemma_entries_map_eq(s, m);
            }
        },
    }
}

fn take_entry<V>(entries: &mut Vec<(String, V)>, key: &String) -> (r: Option<V>)
    requires
        unique_keys(old(entries)@),
    ensures
        unique_keys(final(entries)@),
        entries_map(final(entries)@) == entries_map(old(entries)@).remove(key@),
        r is Some <==> entries_map(old(entries)@).contains_key(key@),
        r matches Some(v) ==> v == entries_map(old(entries)@)[key@],
{
    let ghost k = key@;
    let ghost o = entries@;
    let ghost m = entries_map(o).remove(k);
    match find_key(entries, key) {
        Some(i) => {
            proof {
                lemma_entry_value(o, i as int);
            }
            let (_, v) = entries.remove(i);
            proof {
                let s = entries@;
                assert forall|j: int| 0 <= j < s.len() implies #[trigger] s[j] == o[if j < i { j } else { j + 1 }] by {}
                assert forall|a: int, b: int|
                    0 <= a < s.len() && 0 <= b < s.len() && #[trigger] s[a].0@ == #[trigger] s[b].0@ implies a
                    == b by {
                    let a1 = if a < i { a } else { a + 1 };
                    let b1 = if b < i { b } else { b + 1 };
                    assert(s[a] == o[a1]);
                    assert(s[b] == o[b1]);
                    assert(o[a1].0@ == o[b1].0@);
                }
                assert forall|q: Seq<char>| #[trigger] m.contains_key(q) <==> has_key(s, q) by {
                    if has_key(s, q) {
                        let j = choose|j: int| 0 <= j < s.len() && #[trigger] s[j].0@ == q;
                        let j1 = if j < i { j } else { j + 1 };
                        assert(s[j] == o[j1]);
                        assert(o[j1].0@ == q);
                        assert(j1 != i);
                        lemma_entry_value(o, j1);
                    }
                    if m.contains_key(q) {
                        let j = choose|j: int| 0 <= j < o.len() && #[trigger] o[j].0@ == q;
                        assert(j != i);
                        let j0 = if j < i { j } else { j - 1 };
                        assert(s[j0] == o[j]);
                        assert(s[j0].0@ == q);
                    }
                }
                assert forall|j: int| 0 <= j < s.len() implies m[#[trigger] s[j].0@] == s[j].1 by {
                    let j1 = if j < i { j } else { j + 1 };
                    assert(s[j] == o[j1]);
                    assert(j1 != i);
                    lemma_entry_value(o, j1);
                }
                lemma_entries_map_eq(s, m);
            }
            Some(v)
        },
        None => {
            assert(entries_map(o).remove(k) =~= entries_map(o));
            None
        },
    }
}

proof fn lemma_dom_len<V>(s: Seq<(String, V)>)
    requires
        unique_keys(s),
    ensures
        entries_map(s).dom().len() == s.len(),
        entries_map(s).dom().finite(),
    decreases s.len(),
{
    if s.len() == 0 {
        assert(entries_map(s).dom() =~= Set::<Seq<char>>::empty());
    } else {
        let t = s.drop_last();
        assert(unique_keys(t)) by {
            assert forall|a: int, b: int| 0 <= a < t.len() && 0 <= b < t.len() && #[trigger] t[a].0@ == #[trigger] t[b].0@ implies a == b by {
                assert(s[a].0@ == s[b].0@);
            }
        }
        lemma_dom_len(t);
        let k = s.last().0@;
        assert(!has_key(t, k)) by {
            if has_key(t, k) {
                let j = choose|j: int| 0 <= j < t.len() && #[trigger] t[j].0@ == k;
                assert(s[j].0@ == s[s.len() - 1].0@);
            }
        }
        assert forall|q: Seq<char>| has_key(s, q) <==> (has_key(t, q) || q == k) by {
            if has_key(s, q) {
                let j = choose|j: int| 0 <= j < s.len() && #[trigger] s[j].0@ == q;
                if j < t.len() {
                    assert(t[j].0@ == q);
                }
            }
            if has_key(t, q) {
                let j = choose|j: int| 0 <= j < t.len() && #[trigger] t[j].0@ == q;
                assert(s[j].0@ == q);
            }
            if q == k {
                assert(s[s.len() - 1].0@ == q);
            }
        }
        assert(entries_map(s).dom() =~= entries_map(t).dom().insert(k));
    }
}

impl<V> PathMap<V> {
    #[verifier::type_invariant]
    closed spec fn keys_unique(self) -> bool {
        unique_keys(self.entries@)
    }

    pub closed spec fn view(&self) -> Map<Seq<char>, V> {
        entries_map(self.entries@)
    }

    /// The empty map.
    pub fn new() -> (m: PathMap<V>)
        ensures
            m@ == Map::<Seq<char>, V>::empty(),
    {
        let m = PathMap { entries: Vec::new() };
        assert(m@ =~= Map::<Seq<char>, V>::empty());
        m
    }

    /// Whether `key` has an entry.
    pub fn contains_key(&self, key: &String) -> (b: bool)
        ensures
            b == self@.contains_key(key@),
    {
        find_key(&self.entries, key).is_some()
    }

    /// The value stored for `key`, if any.
    pub fn get(&self, key: &String) -> (r: Option<&V>)
        ensures
            r is Some <==> self@.contains_key(key@),
            r matches Some(v) ==> *v == self@[key@],
    {
        proof {
            use_type_invariant(self);
        }
        match find_key(&self.entries, key) {
            Some(i) => {
                proof {
                    lemma_entry_value(self.entries@, i as int);
                }
                Some(&self.entries[i].1)
            },
            None => None,
        }
    }

    /// Stores `value` for `key`, replacing what was there.
    pub fn insert(&mut self, key: String, value: V)
        ensures
            final(self)@ == old(self)@.insert(key@, value),
    {
        proof {
            use_type_invariant(&*self);
        }
        let mut entries: Vec<(String, V)> = Vec::new();
        std::mem::swap(&mut entries, &mut self.entries);
        insert_entry(&mut entries, key, value);
        self.entries = entries;
    }

    /// Removes the entry for `key` and returns its value.
    pub fn take(&mut self, key: &String) -> (r: Option<V>)
        ensures
            final(self)@ == old(self)@.remove(key@),
            r is Some <==> old(self)@.contains_key(key@),
            r matches Some(v) ==> v == old(self)@[key@],
    {
        proof {
            use_type_invariant(&*self);
        }
        let mut entries: Vec<(String, V)> = Vec::new();
        std::mem::swap(&mut entries, &mut self.entries);
        let r = take_entry(&mut entries, key);
        self.entries = entries;
        r
    }

    /// Drops every entry.
    pub fn clear(&mut self)
        ensures
            final(self)@ == Map::<Seq<char>, V>::empty(),
    {
        self.entries = Vec::new();
        assert(self@ =~= Map::<Seq<char>, V>::empty());
    }

    /// The stored paths.
    pub fn keys(&self) -> (r: Vec<String>)
        ensures
            r@.len() == self@.dom().len(),
            forall|i: int| 0 <= i < r@.len() ==> self@.contains_key(#[trigger] r@[i]@),
            forall|q: Seq<char>| self@.contains_key(q) <==> exists|i: int| 0 <= i < r@.len() && #[trigger] r@[i]@ == q,
            forall|i: int, j: int| 0 <= i < r@.len() && 0 <= j < r@.len() && #[trigger] r@[i]@ == #[trigger] r@[j]@ ==> i == j,
    {
        proof {
            use_type_invariant(self);
        }
        let mut out: Vec<String> = Vec::new();
        let mut i: usize = 0;
        while i < self.entries.len()
            invariant
                i <= self.entries@.len(),
                out@.len() == i,
                unique_keys(self.entries@),
                forall|j: int| 0 <= j < i ==> #[trigger] out@[j]@ == self.entries@[j].0@,
            decreases self.entries.len() - i,
        {
            out.push(self.entries[i].0.clone());
            i += 1;
        }
        proof {
            let s = self.entries@;
            assert forall|q: Seq<char>| self@.contains_key(q) <==> exists|k: int| 0 <= k < out@.len() && #[trigger] out@[k]@ == q by {
                if self@.contains_key(q) {
                    let k = choose|k: int| 0 <= k < s.len() && #[trigger] s[k].0@ == q;
                    assert(out@[k]@ == q);
                }
                if exists|k: int| 0 <= k < out@.len() && #[trigger] out@[k]@ == q {
                    let k = choose|k: int| 0 <= k < out@.len() && #[trigger] out@[k]@ == q;
                    assert(s[k].0@ == q);
                    assert(has_key(s, q));
                }
            }
            lemma_dom_len(s);
            assert forall|i: int| 0 <= i < out@.len() implies self@.contains_key(#[trigger] out@[i]@) by {
                assert(s[i].0@ == out@[i]@);
                assert(has_key(s, out@[i]@));
            }
        }
        out
    }

    /// The entries, in the order they were first stored.
    pub fn entries(&self) -> (r: &Vec<(String, V)>)
        ensures
            forall|i: int| 0 <= i < r@.len() ==> #[trigger] self@.contains_key(r@[i].0@) && self@[r@[i].0@] == r@[i].1,
            forall|q: Seq<char>| #[trigger] self@.contains_key(q) ==> exists|i: int| 0 <= i < r@.len() && #[trigger] r@[i].0@ == q,
            unique_keys(r@),
    {
        proof {
            use_type_invariant(self);
            assert forall|i: int| 0 <= i < self.entries@.len() implies #[trigger] self@.contains_key(self.entries@[i].0@) && self@[self.entries@[i].0@] == self.entries@[i].1 by {
                lemma_entry_value(self.entries@, i);
            }
        }
        &self.entries
    }
}

impl<V: Clone> Clone for PathMap<V> {
    /// A copy with the same paths; each value is the value's own clone.
    fn clone(&self) -> (r: Self)
        ensures
            r@.dom() == self@.dom(),
    {
        proof {
            use_type_invariant(self);
        }
        let mut out: Vec<(String, V)> = Vec::new();
        let mut i: usize = 0;
        while i < self.entries.len()
            invariant
                i <= self.entries@.len(),
                unique_keys(self.entries@),
                out@.len() == i,
                forall|j: int| 0 <= j < i ==> #[trigger] out@[j].0@ == self.entries@[j].0@,
            decreases self.entries.len() - i,
        {
            let k = self.entries[i].0.clone();
            let v = self.entries[i].1.clone();
            out.push((k, v));
            i += 1;
        }
        proof {
            let s = self.entries@;
            assert forall|a: int, b: int|
                0 <= a < out@.len() && 0 <= b < out@.len() && #[trigger] out@[a].0@ == #[trigger] out@[b].0@ implies a
                == b by {
                assert(s[a].0@ == s[b].0@);
            }
            assert forall|q: Seq<char>| has_key(out@, q) <==> has_key(s, q) by {
                if has_key(out@, q) {
                    let j = choose|j: int| 0 <= j < out@.len() && #[trigger] out@[j].0@ == q;
                    assert(s[j].0@ == q);
                }
                if has_key(s, q) {
                    let j = choose|j: int| 0 <= j < s.len() && #[trigger] s[j].0@ == q;
                    assert(out@[j].0@ == q);
                }
            }
            assert(entries_map(out@).dom() =~= entries_map(s).dom());
        }
        PathMap { entries: out }
    }
}

/// A set of book paths.
#[derive(Debug, Clone)]
pub struct PathSet {
    paths: PathMap<()>,
}

impl PathSet {
    pub closed spec fn view(&self) -> Set<Seq<char>> {
        self.paths@.dom()
    }

    pub fn new() -> (s: PathSet)
        ensures
            s@ == Set::<Seq<char>>::empty(),
    {
        let s = PathSet { paths: PathMap::new() };
        assert(s@ =~= Set::<Seq<char>>::empty());
        s
    }

    pub fn contains(&self, path: &String) -> (b: bool)
        ensures
            b == self@.contains(path@),
    {
        self.paths.contains_key(path)
    }

    pub fn insert(&mut self, path: String)
        ensures
            final(self)@ == old(self)@.insert(path@),
    {
        self.paths.insert(path, ());
        assert(self@ =~= old(self)@.insert(path@));
    }

    pub fn remove(&mut self, path: &String)
        ensures
            final(self)@ == old(self)@.remove(path@),
    {
        let _ = self.paths.take(path);
        assert(self@ =~= old(self)@.remove(path@));
    }

    /// Empties the set.
    pub fn clear(&mut self)
        ensures
            final(self)@ == Set::<Seq<char>>::empty(),
    {
        self.paths.clear();
        assert(self@ =~= Set::<Seq<char>>::empty());
    }

    /// The paths in the set, each once.
    pub fn to_vec(&self) -> (r: Vec<String>)
        ensures
            forall|q: Seq<char>| self@.contains(q) <==> exists|i: int| 0 <= i < r@.len() && #[trigger] r@[i]@ == q,
            forall|i: int, j: int| 0 <= i < r@.len() && 0 <= j < r@.len() && #[trigger] r@[i]@ == #[trigger] r@[j]@ ==> i == j,
    {
        self.paths.keys()
    }
}

} // verus!
