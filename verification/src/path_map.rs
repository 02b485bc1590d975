//! A map from paths to values that remembers the order in which its paths
//! first came in.

use crate::text::same_text;
use vstd::prelude::*;

verus! {

/// Whether some entry has the path `key`.
pub open spec fn has_key<T>(pairs: Seq<(Seq<char>, T)>, key: Seq<char>) -> bool {
    exists|i: int| 0 <= i < pairs.len() && (#[trigger] pairs[i]).0 == key
}

/// The place of an entry with the path `key`, where there is one.
pub open spec fn position<T>(pairs: Seq<(Seq<char>, T)>, key: Seq<char>) -> int {
    choose|i: int| 0 <= i < pairs.len() && (#[trigger] pairs[i]).0 == key
}

/// Whether no two entries share a path.
pub open spec fn distinct_keys<T>(pairs: Seq<(Seq<char>, T)>) -> bool {
    forall|i: int, j: int|
        0 <= i < j < pairs.len() ==> (#[trigger] pairs[i]).0 != (#[trigger] pairs[j]).0
}

/// The entries after `value` is recorded under `key`: a path that is present
/// keeps its place and takes the new value, a new path goes to the end.
pub open spec fn upsert<T>(pairs: Seq<(Seq<char>, T)>, key: Seq<char>, value: T) -> Seq<
    (Seq<char>, T),
> {
    if has_key(pairs, key) {
        pairs.update(position(pairs, key), (key, value))
    } else {
        pairs.push((key, value))
    }
}

/// The entries as a mathematical map.
pub open spec fn as_map<T>(pairs: Seq<(Seq<char>, T)>) -> Map<Seq<char>, T> {
    Map::new(|key: Seq<char>| has_key(pairs, key), |key: Seq<char>| pairs[position(pairs, key)].1)
}

/// The entries of a list of named values, each name taken as its text.
pub open spec fn pairs_of<T>(entries: Seq<(String, T)>) -> Seq<(Seq<char>, T)> {
    entries.map_values(|e: (String, T)| (e.0@, e.1))
}

/// The entries that a list of named values leaves when they are recorded one
/// after another.
pub open spec fn collected<T>(pairs: Seq<(Seq<char>, T)>) -> Seq<(Seq<char>, T)>
    decreases pairs.len(),
{
    if pairs.len() == 0 {
        Seq::empty()
    } else {
        upsert(collected(pairs.drop_last()), pairs.last().0, pairs.last().1)
    }
}

/// Recording a value keeps the paths distinct.
pub proof fn lemma_upsert_distinct<T>(pairs: Seq<(Seq<char>, T)>, key: Seq<char>, value: T)
    requires
        distinct_keys(pairs),
    ensures
        distinct_keys(upsert(pairs, key, value)),
        as_map(upsert(pairs, key, value)) == as_map(pairs).insert(key, value),
{
    let after = upsert(pairs, key, value);
    if has_key(pairs, key) {
        let p = position(pairs, key);
        assert forall|i: int, j: int| 0 <= i < j < after.len() implies (#[trigger] after[i]).0 != (
        #[trigger] after[j]).0 by {
            assert(after[i].0 == pairs[i].0);
            assert(after[j].0 == pairs[j].0);
        }
        assert forall|k: Seq<char>| has_key(after, k) == has_key(pairs, k) by {
            if has_key(after, k) {
                let i = position(after, k);
                assert(pairs[i].0 == k);
            }
            if has_key(pairs, k) {
                let i = position(pairs, k);
                assert(after[i].0 == k);
            }
        }
        assert forall|k: Seq<char>| has_key(after, k) implies as_map(after)[k] == as_map(
            pairs,
        ).insert(key, value)[k] by {
            let i = position(after, k);
            let j = position(pairs, k);
            assert(pairs[i].0 == k);
            if i < j {
                assert(pairs[i].0 != pairs[j].0);
            }
            if j < i {
                assert(pairs[j].0 != pairs[i].0);
            }
        }
        assert(has_key(after, key));
    } else {
        assert forall|i: int, j: int| 0 <= i < j < after.len() implies (#[trigger] after[i]).0 != (
        #[trigger] after[j]).0 by {
            assert(after[i] == pairs[i]);
            if j < pairs.len() {
                assert(after[j] == pairs[j]);
            }
        }
        assert(after[pairs.len() as int].0 == key);
        assert forall|k: Seq<char>| has_key(after, k) == (has_key(pairs, k) || k == key) by {
            if has_key(after, k) {
                let i = position(after, k);
                if i < pairs.len() {
                    assert(pairs[i].0 == k);
                }
            }
            if has_key(pairs, k) {
                let i = position(pairs, k);
                assert(after[i].0 == k);
            }
        }
        assert forall|k: Seq<char>| has_key(after, k) implies as_map(after)[k] == as_map(
            pairs,
        ).insert(key, value)[k] by {
            let i = position(after, k);
            if k != key {
                let j = position(pairs, k);
                assert(after[j] == pairs[j]);
                if i < j {
                    assert(after[i].0 != after[j].0);
                }
                if j < i {
                    assert(after[j].0 != after[i].0);
                }
            } else {
                if i < pairs.len() {
                    assert(pairs[i].0 == k);
                }
            }
        }
    }
    assert(as_map(after) =~= as_map(pairs).insert(key, value));
}

/// A map from paths to values. Its entries stand in the order in which their
/// paths first came in, and no path occurs twice.
#[derive(Debug)]
pub struct PathMap<T> {
    entries: Vec<(String, T)>,
}

impl<T> PathMap<T> {
    #[verifier::type_invariant]
    spec fn well_formed(self) -> bool {
        distinct_keys(pairs_of(self.entries@))
    }

    /// The entries, in order, each path taken as its text.
    pub closed spec fn pairs(&self) -> Seq<(Seq<char>, T)> {
        pairs_of(self.entries@)
    }

    /// An empty map.
    pub fn new() -> (map: Self)
        ensures
            map.pairs() == Seq::<(Seq<char>, T)>::empty(),
    {
        PathMap { entries: Vec::new() }
    }

    /// The map that a list of named values leaves when they are recorded one
    /// after another: of two values under one path the later stays, in the
    /// place of the earlier.
    pub fn from_entries(entries: Vec<(String, T)>) -> (map: Self)
        ensures
            map.pairs() == collected(pairs_of(entries@)),
            distinct_keys(map.pairs()),
    {
        let mut map: PathMap<T> = PathMap::new();
        let ghost all = pairs_of(entries@);
        let ghost mut n: int = 0;
        for entry in it: entries
            invariant
                n == it.index(),
                it.seq() == entries@,
                all == pairs_of(entries@),
                distinct_keys(map.pairs()),
                map.pairs() == collected(all.take(n)),
        {
            proof {
                assert(all.take(n + 1).drop_last() == all.take(n));
                n = n + 1;
            }
            map.insert(entry.0, entry.1);
        }
        assert(all.take(all.len() as int) == all);
        map
    }

    /// Makes known what holds of every map: no two entries share a path.
    pub fn paths_are_distinct(&self)
        ensures
            distinct_keys(self.pairs()),
    {
        proof {
            use_type_invariant(self);
        }
    }

    /// The number of entries.
    pub fn len(&self) -> (n: usize)
        ensures
            n == self.pairs().len(),
    {
        self.entries.len()
    }

    /// Whether the map holds nothing.
    pub fn is_empty(&self) -> (empty: bool)
        ensures
            empty == (self.pairs().len() == 0),
    {
        self.entries.len() == 0
    }

    fn find(&self, key: &str) -> (at: Option<usize>)
        ensures
            match at {
                Some(i) => i < self.pairs().len() && self.pairs()[i as int].0 == key@,
                None => !has_key(self.pairs(), key@),
            },
    {
        let mut i: usize = 0;
        while i < self.entries.len()
            invariant
                i <= self.entries.len(),
                forall|j: int| 0 <= j < i ==> (#[trigger] self.pairs()[j]).0 != key@,
            decreases self.entries.len() - i,
        {
            if same_text(self.entries[i].0.as_str(), key) {
                return Some(i);
            }
            i = i + 1;
        }
        None
    }

    /// Records `value` under `key`. A path that is present keeps its place
    /// and takes the new value; a new path goes to the end.
    pub fn insert(&mut self, key: String, value: T)
        ensures
            final(self).pairs() == upsert(old(self).pairs(), key@, value),
            distinct_keys(old(self).pairs()),
            distinct_keys(final(self).pairs()),
    {
        proof {
            use_type_invariant(&*self);
            lemma_upsert_distinct(self.pairs(), key@, value);
        }
        let ghost before = self.pairs();
        let found = self.find(key.as_str());
        let mut entries: Vec<(String, T)> = Vec::new();
        core::mem::swap(&mut self.entries, &mut entries);
        match found {
            Some(i) => {
                entries.set(i, (key, value));
            },
            None => {
                entries.push((key, value));
            },
        }
        assert(pairs_of(entries@) =~= upsert(before, key@, value));
        self.entries = entries;
    }

    /// The value recorded under `key`.
    pub fn get(&self, key: &str) -> (found: Option<&T>)
        ensures
            match found {
                Some(v) => as_map(self.pairs()).contains_key(key@) && as_map(self.pairs())[key@]
                    == *v,
                None => !as_map(self.pairs()).contains_key(key@),
            },
    {
        proof {
            use_type_invariant(self);
        }
        match self.find(key) {
            Some(i) => Some(&self.entries[i].1),
            None => None,
        }
    }

    /// Whether a value is recorded under `key`.
    pub fn contains_key(&self, key: &str) -> (found: bool)
        ensures
            found == as_map(self.pairs()).contains_key(key@),
    {
        self.find(key).is_some()
    }

    /// The path of the entry at place `i`.
    pub fn key_at(&self, i: usize) -> (key: &String)
        requires
            i < self.pairs().len(),
        ensures
            key@ == self.pairs()[i as int].0,
    {
        &self.entries[i].0
    }

    /// The value of the entry at place `i`.
    pub fn value_at(&self, i: usize) -> (value: &T)
        requires
            i < self.pairs().len(),
        ensures
            *value == self.pairs()[i as int].1,
    {
        &self.entries[i].1
    }

    /// The paths, in order.
    pub fn keys(&self) -> (keys: Vec<&String>)
        ensures
            keys@.len() == self.pairs().len(),
            forall|i: int| 0 <= i < keys@.len() ==> (#[trigger] keys@[i])@ == self.pairs()[i].0,
    {
        let mut keys: Vec<&String> = Vec::new();
        let mut i: usize = 0;
        while i < self.entries.len()
            invariant
                i <= self.entries.len(),
                keys@.len() == i,
                forall|j: int| 0 <= j < i ==> (#[trigger] keys@[j])@ == self.pairs()[j].0,
            decreases self.entries.len() - i,
        {
            keys.push(&self.entries[i].0);
            i = i + 1;
        }
        keys
    }
}

impl<T: Clone> Clone for PathMap<T> {
    /// A copy with the same paths in the same order, each value cloned.
    fn clone(&self) -> (copy: Self)
        ensures
            copy.pairs().len() == self.pairs().len(),
            forall|i: int|
                0 <= i < self.pairs().len() ==> (#[trigger] copy.pairs()[i]).0 == self.pairs()[i].0
                    && cloned(self.pairs()[i].1, copy.pairs()[i].1),
    {
        proof {
            use_type_invariant(self);
        }
        let mut entries: Vec<(String, T)> = Vec::new();
        let mut i: usize = 0;
        while i < self.entries.len()
            invariant
                i <= self.entries.len(),
                entries.len() == i,
                forall|j: int|
                    0 <= j < i ==> (#[trigger] entries@[j]).0@ == self.entries@[j].0@ && cloned(
                        self.entries@[j].1,
                        entries@[j].1,
                    ),
            decreases self.entries.len() - i,
        {
            entries.push((self.entries[i].0.clone(), self.entries[i].1.clone()));
            i = i + 1;
        }
        assert forall|a: int, b: int| 0 <= a < b < entries@.len() implies (#[trigger] pairs_of(
            entries@,
        )[a]).0 != (#[trigger] pairs_of(entries@)[b]).0 by {
            assert(pairs_of(self.entries@)[a].0 != pairs_of(self.entries@)[b].0);
        }
        PathMap { entries }
    }
}

} // verus!
