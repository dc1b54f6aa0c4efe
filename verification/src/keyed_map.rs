//! A finite map kept as a list of entries.

use vstd::prelude::*;

verus! {

/// A key: a value that stands for a plain value, its view, and can be told
/// apart from another key by it.
pub trait Key: View + Sized {
    /// Whether two keys stand for the same plain value.
    fn same(&self, other: &Self) -> (same: bool)
        ensures
            same == (self@ == other@),
    ;
}

impl Key for String {
    fn same(&self, other: &Self) -> (same: bool) {
        *self == *other
    }
}

impl Key for u64 {
    fn same(&self, other: &Self) -> (same: bool) {
        *self == *other
    }
}

/// The map that a list of entries stands for: each key with the value of
/// its last entry.
pub open spec fn assoc<K: View, V>(entries: Seq<(K, V)>) -> Map<K::V, V>
    decreases entries.len(),
{
    if entries.len() == 0 {
        Map::empty()
    } else {
        assoc(entries.drop_last()).insert(entries.last().0@, entries.last().1)
    }
}

/// Whether no two entries of a list have the same key.
pub open spec fn distinct_keys<K: View, V>(entries: Seq<(K, V)>) -> bool {
    forall|i: int, j: int|
        0 <= i < j < entries.len() ==> (#[trigger] entries[i]).0@ != (#[trigger] entries[j]).0@
}

/// In a list without repeated keys, each entry's key has that entry's
/// value, and the map holds no other key.
pub proof fn lemma_assoc_of_distinct<K: View, V>(entries: Seq<(K, V)>)
    requires
        distinct_keys(entries),
    ensures
        forall|i: int|
            0 <= i < entries.len() ==> assoc(entries).contains_key((#[trigger] entries[i]).0@)
                && assoc(entries)[entries[i].0@] == entries[i].1,
        forall|key: K::V| #[trigger]
            assoc(entries).contains_key(key) ==> exists|i: int|
                0 <= i < entries.len() && (#[trigger] entries[i]).0@ == key,
    decreases entries.len(),
{
    if entries.len() > 0 {
        let front = entries.drop_last();
        let last = entries.last();
        assert forall|i: int, j: int| 0 <= i < j < front.len() implies (#[trigger] front[i]).0@
            != (#[trigger] front[j]).0@ by {
            assert(front[i] == entries[i] && front[j] == entries[j]);
        }
        lemma_assoc_of_distinct(front);
        assert forall|i: int| 0 <= i < entries.len() implies assoc(entries).contains_key(
            (#[trigger] entries[i]).0@,
        ) && assoc(entries)[entries[i].0@] == entries[i].1 by {
            if i < front.len() {
                assert(front[i] == entries[i]);
                assert(entries[i].0@ != entries[entries.len() - 1].0@);
            }
        }
        assert forall|key: K::V| #[trigger] assoc(entries).contains_key(key) implies exists|i: int|
            0 <= i < entries.len() && (#[trigger] entries[i]).0@ == key by {
            if key == last.0@ {
                assert(entries[entries.len() - 1].0@ == key);
            } else {
                assert(assoc(front).contains_key(key));
                let i = choose|i: int| 0 <= i < front.len() && (#[trigger] front[i]).0@ == key;
                assert(entries[i].0@ == key);
            }
        }
    }
}

/// A list of entries stands for a map with finitely many keys.
pub proof fn lemma_assoc_is_finite<K: View, V>(entries: Seq<(K, V)>)
    ensures
        assoc(entries).dom().finite(),
    decreases entries.len(),
{
    if entries.len() > 0 {
        lemma_assoc_is_finite(entries.drop_last());
    }
}

/// Two lists whose entries agree, one by one, in their keys and in what
/// `f` makes of their values stand for maps that `f` makes equal.
pub proof fn lemma_assoc_alike<K: View, V, W>(
    first: Seq<(K, V)>,
    second: Seq<(K, V)>,
    f: spec_fn(V) -> W,
)
    requires
        first.len() == second.len(),
        forall|i: int|
            0 <= i < first.len() ==> (#[trigger] first[i]).0@ == second[i].0@ && f(first[i].1)
                == f(second[i].1),
    ensures
        assoc(first).map_values(f) == assoc(second).map_values(f),
    decreases first.len(),
{
    if first.len() > 0 {
        let a = first.drop_last();
        let b = second.drop_last();
        assert forall|i: int| 0 <= i < a.len() implies (#[trigger] a[i]).0@ == b[i].0@ && f(
            a[i].1,
        ) == f(b[i].1) by {
            assert(a[i] == first[i] && b[i] == second[i]);
        }
        lemma_assoc_alike(a, b, f);
        let x = first[first.len() - 1];
        let y = second[second.len() - 1];
        assert(x.0@ == y.0@ && f(x.1) == f(y.1));
        assert(assoc(first).map_values(f) =~= assoc(a).map_values(f).insert(x.0@, f(x.1)));
        assert(assoc(second).map_values(f) =~= assoc(b).map_values(f).insert(y.0@, f(y.1)));
    } else {
        assert(assoc(first).map_values(f) =~= assoc(second).map_values(f));
    }
}

/// A finite map whose keys are told apart by their views. It is kept as a
/// list of entries in which no key occurs twice.
pub struct KeyedMap<K: Key, V> {
    entries: Vec<(K, V)>,
}

impl<K: Key, V> KeyedMap<K, V> {
    #[verifier::type_invariant]
    spec fn distinct(self) -> bool {
        distinct_keys(self.entries@)
    }

    spec fn holds(self, key: K::V, i: int) -> bool {
        0 <= i < self.entries.len() && self.entries[i].0@ == key
    }

    /// The map this value stands for.
    pub closed spec fn view(&self) -> Map<K::V, V> {
        assoc(self.entries@)
    }

    /// An empty map.
    pub fn new() -> (map: Self)
        ensures
            map@ == Map::<K::V, V>::empty(),
    {
        KeyedMap { entries: Vec::new() }
    }

    fn find(&self, key: &K) -> (found: Option<usize>)
        ensures
            match found {
                Some(i) => self.holds(key@, i as int),
                None => forall|i: int| !self.holds(key@, i),
            },
    {
        let mut i: usize = 0;
        while i < self.entries.len()
            invariant
                i <= self.entries.len(),
                forall|j: int| 0 <= j < i ==> !self.holds(key@, j),
            decreases self.entries.len() - i,
        {
            if self.entries[i].0.same(key) {
                return Some(i);
            }
            i += 1;
        }
        None
    }

    /// Whether a value is stored for `key`.
    pub fn contains_key(&self, key: &K) -> (found: bool)
        ensures
            found == self@.contains_key(key@),
    {
        proof {
            use_type_invariant(self);
            lemma_assoc_of_distinct(self.entries@);
        }
        let found = self.find(key);
        proof {
            if self@.contains_key(key@) {
                let i = choose|i: int|
                    0 <= i < self.entries@.len() && (#[trigger] self.entries@[i]).0@ == key@;
                assert(self.holds(key@, i));
            }
        }
        found.is_some()
    }

    /// The value stored for `key`, if there is one.
    pub fn get(&self, key: &K) -> (value: Option<&V>)
        ensures
            match value {
                Some(v) => self@.contains_key(key@) && *v == self@[key@],
                None => !self@.contains_key(key@),
            },
    {
        proof {
            use_type_invariant(self);
            lemma_assoc_of_distinct(self.entries@);
        }
        match self.find(key) {
            Some(i) => Some(&self.entries[i].1),
            None => {
                proof {
                    if self@.contains_key(key@) {
                        let i = choose|i: int|
                            0 <= i < self.entries@.len() && (#[trigger] self.entries@[i]).0@
                                == key@;
                        assert(self.holds(key@, i));
                    }
                }
                None
            },
        }
    }

    /// Stores `value` for `key`, in place of any value stored for it
    /// before. Other keys keep their values.
    pub fn insert(&mut self, key: K, value: V)
        ensures
            final(self)@ == old(self)@.insert(key@, value),
    {
        proof {
            use_type_invariant(&*self);
            lemma_assoc_of_distinct(self.entries@);
        }
        let found = self.find(&key);
        let ghost name = key@;
        let ghost before = self.entries@;
        let mut entries: Vec<(K, V)> = Vec::new();
        std::mem::swap(&mut entries, &mut self.entries);
        match found {
            Some(i) => {
                entries.set(i, (key, value));
            },
            None => {
                entries.push((key, value));
            },
        }
        proof {
            assert forall|j: int| 0 <= j < before.len() implies (#[trigger] entries@[j]).0@
                == before[j].0@ by {}
            assert forall|i: int, j: int| 0 <= i < j < entries@.len() implies (
            #[trigger] entries@[i]).0@ != (#[trigger] entries@[j]).0@ by {
                if j == before.len() {
                    assert(!old(self).holds(name, i));
                }
            }
            lemma_assoc_of_distinct(entries@);
            let after = assoc(entries@);
            let wanted = assoc(before).insert(name, value);
            let slot = match found {
                Some(i) => i as int,
                None => before.len() as int,
            };
            assert(entries@[slot].0@ == name && entries@[slot].1 == value);
            assert forall|k: K::V| after.contains_key(k) <==> wanted.contains_key(k) by {
                if after.contains_key(k) && k != name {
                    let i = choose|i: int|
                        0 <= i < entries@.len() && (#[trigger] entries@[i]).0@ == k;
                    assert(before[i].0@ == k);
                }
                if assoc(before).contains_key(k) && k != name {
                    let i = choose|i: int| 0 <= i < before.len() && (#[trigger] before[i]).0@ == k;
                    assert(entries@[i].0@ == k);
                }
            }
            assert forall|k: K::V| after.contains_key(k) implies after[k] == wanted[k] by {
                let i = choose|i: int| 0 <= i < entries@.len() && (#[trigger] entries@[i]).0@ == k;
                if k != name {
                    assert(before[i].0@ == k);
                    assert(entries@[i].1 == before[i].1);
                } else {
                    assert(i == slot);
                }
            }
            assert(after =~= wanted);
        }
        self.entries = entries;
    }

    /// Takes out the value stored for `key`, if there is one. Other keys
    /// keep their values.
    pub fn remove(&mut self, key: &K) -> (value: Option<V>)
        ensures
            final(self)@ == old(self)@.remove(key@),
            match value {
                Some(v) => old(self)@.contains_key(key@) && v == old(self)@[key@],
                None => !old(self)@.contains_key(key@),
            },
    {
        proof {
            use_type_invariant(&*self);
            lemma_assoc_of_distinct(self.entries@);
        }
        let found = self.find(key);
        let ghost before = self.entries@;
        match found {
            Some(i) => {
                let mut entries: Vec<(K, V)> = Vec::new();
                std::mem::swap(&mut entries, &mut self.entries);
                let (_, value) = entries.remove(i);
                proof {
                    assert forall|a: int, b: int| 0 <= a < b < entries@.len() implies (
                    #[trigger] entries@[a]).0@ != (#[trigger] entries@[b]).0@ by {
                        let a0 = if a < i { a } else { a + 1 };
                        let b0 = if b < i { b } else { b + 1 };
                        assert(entries@[a] == before[a0] && entries@[b] == before[b0]);
                    }
                    lemma_assoc_of_distinct(entries@);
                    let after = assoc(entries@);
                    let wanted = assoc(before).remove(key@);
                    assert forall|k: K::V| after.contains_key(k) <==> wanted.contains_key(k) by {
                        if after.contains_key(k) {
                            let a = choose|a: int|
                                0 <= a < entries@.len() && (#[trigger] entries@[a]).0@ == k;
                            let a0 = if a < i { a } else { a + 1 };
                            assert(entries@[a] == before[a0]);
                            assert(before[a0].0@ == k);
                            assert(before[i as int].0@ == key@);
                        }
                        if wanted.contains_key(k) {
                            let a0 = choose|a0: int|
                                0 <= a0 < before.len() && (#[trigger] before[a0]).0@ == k;
                            assert(before[i as int].0@ == key@);
                            let a = if a0 < i { a0 } else { a0 - 1 };
                            assert(entries@[a] == before[a0]);
                            assert(entries@[a].0@ == k);
                        }
                    }
                    assert forall|k: K::V| after.contains_key(k) implies after[k] == wanted[k] by {
                        let a = choose|a: int|
                            0 <= a < entries@.len() && (#[trigger] entries@[a]).0@ == k;
                        let a0 = if a < i { a } else { a + 1 };
                        assert(entries@[a] == before[a0]);
                        assert(before[a0].0@ == k);
                    }
                    assert(after =~= wanted);
                    assert(before[i as int].0@ == key@);
                }
                self.entries = entries;
                Some(value)
            },
            None => {
                proof {
                    if self@.contains_key(key@) {
                        let i = choose|i: int|
                            0 <= i < before.len() && (#[trigger] before[i]).0@ == key@;
                        assert(self.holds(key@, i));
                    }
                    assert(self@ =~= old(self)@.remove(key@));
                }
                None
            },
        }
    }

    /// The entries. No key occurs twice in them, and as a
    /// list they stand for this map.
    pub fn entries(&self) -> (entries: &Vec<(K, V)>)
        ensures
            distinct_keys(entries@),
            assoc(entries@) == self@,
            self@.dom().finite(),
    {
        proof {
            use_type_invariant(self);
            lemma_assoc_is_finite(self.entries@);
        }
        &self.entries
    }
}

} // verus!
