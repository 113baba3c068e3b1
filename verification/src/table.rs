//! An association table keyed by `ModulePath`, with map semantics over the
//! paths' views. Keys are kept unique; inserting for a present key replaces
//! its value, as a hash map's insert would.

use vstd::prelude::*;
use crate::path::ModulePath;

verus! {

/// The map denoted by a sequence of key/value entries, where a later entry
/// for the same key wins.
pub open spec fn assoc_view<T>(entries: Seq<(ModulePath, T)>) -> Map<Seq<Seq<char>>, T>
    decreases entries.len(),
{
    if entries.len() == 0 {
        Map::empty()
    } else {
        assoc_view(entries.drop_last()).insert(entries.last().0@, entries.last().1)
    }
}

proof fn lemma_assoc_contains<T>(entries: Seq<(ModulePath, T)>, k: Seq<Seq<char>>)
    ensures
        assoc_view(entries).contains_key(k) <==> exists|i: int|
            0 <= i < entries.len() && (#[trigger] entries[i]).0@ == k,
    decreases entries.len(),
{
    if entries.len() > 0 {
        let front = entries.drop_last();
        lemma_assoc_contains(front, k);
        assert(forall|i: int| 0 <= i < front.len() ==> #[trigger] front[i] == entries[i]);
        if assoc_view(entries).contains_key(k) {
            if entries.last().0@ == k {
                assert(entries[entries.len() - 1].0@ == k);
            }
        }
        if exists|i: int| 0 <= i < entries.len() && (#[trigger] entries[i]).0@ == k {
            let i = choose|i: int| 0 <= i < entries.len() && (#[trigger] entries[i]).0@ == k;
            if i < entries.len() - 1 {
                assert(front[i].0@ == k);
            }
        }
    }
}

proof fn lemma_assoc_index<T>(entries: Seq<(ModulePath, T)>, i: int, k: Seq<Seq<char>>)
    requires
        0 <= i < entries.len(),
        entries[i].0@ == k,
        forall|j: int| i < j < entries.len() ==> (#[trigger] entries[j]).0@ != k,
    ensures
        assoc_view(entries).contains_key(k),
        assoc_view(entries)[k] == entries[i].1,
    decreases entries.len(),
{
    if i < entries.len() - 1 {
        let front = entries.drop_last();
        assert(forall|j: int| 0 <= j < front.len() ==> #[trigger] front[j] == entries[j]);
        lemma_assoc_index(front, i, k);
        assert(entries.last().0@ != k);
    }
}

proof fn lemma_assoc_remove<T>(entries: Seq<(ModulePath, T)>, i: int, k: Seq<Seq<char>>)
    requires
        0 <= i < entries.len(),
        entries[i].0@ == k,
        forall|j: int| 0 <= j < entries.len() && j != i ==> (#[trigger] entries[j]).0@ != k,
    ensures
        assoc_view(entries.remove(i)) == assoc_view(entries).remove(k),
    decreases entries.len(),
{
    let front = entries.drop_last();
    if i == entries.len() - 1 {
        assert(entries.remove(i) =~= front);
        assert(forall|j: int| 0 <= j < front.len() ==> #[trigger] front[j] == entries[j]);
        lemma_assoc_contains(front, k);
        assert(!assoc_view(front).contains_key(k));
        assert(assoc_view(front) =~= assoc_view(front).insert(k, entries[i].1).remove(k));
    } else {
        let last = entries.last();
        assert(forall|j: int| 0 <= j < front.len() ==> #[trigger] front[j] == entries[j]);
        lemma_assoc_remove(front, i, k);
        assert(entries.remove(i).drop_last() =~= front.remove(i));
        assert(entries.remove(i).last() == last);
        assert(assoc_view(entries.remove(i)) == assoc_view(front.remove(i)).insert(
            last.0@,
            last.1,
        ));
        assert(last.0@ != k);
        assert(assoc_view(front).remove(k).insert(last.0@, last.1) =~= assoc_view(front).insert(
            last.0@,
            last.1,
        ).remove(k));
    }
}

/// A table from module paths to values, with one entry per key.
pub struct PathTable<T> {
    entries: Vec<(ModulePath, T)>,
}

impl<T> View for PathTable<T> {
    type V = Map<Seq<Seq<char>>, T>;

    closed spec fn view(&self) -> Map<Seq<Seq<char>>, T> {
        assoc_view(self.entries@)
    }
}

impl<T> PathTable<T> {
    /// Internal invariant: no two entries share a key.
    pub closed spec fn wf(self) -> bool {
        forall|i: int, j: int|
            0 <= i < j < self.entries.len() ==> (#[trigger] self.entries[i]).0@ != (
            #[trigger] self.entries[j]).0@
    }

    /// An empty table.
    pub fn new() -> (r: Self)
        ensures
            r.wf(),
            r@ == Map::<Seq<Seq<char>>, T>::empty(),
    {
        Self { entries: Vec::new() }
    }

    /// The index of the entry for `key`, where one exists.
    fn position_of(&self, key: &ModulePath) -> (r: Option<usize>)
        ensures
            match r {
                Some(i) => i < self.entries.len() && self.entries[i as int].0@ == key@,
                None => forall|j: int|
                    0 <= j < self.entries.len() ==> (#[trigger] self.entries[j]).0@ != key@,
            },
    {
        let n = self.entries.len();
        for i in 0..n
            invariant
                n == self.entries.len(),
                forall|j: int| 0 <= j < i ==> (#[trigger] self.entries[j]).0@ != key@,
        {
            if self.entries[i].0 == *key {
                return Some(i);
            }
        }
        None
    }

    /// Whether the table holds a value for `key`.
    pub fn contains_key(&self, key: &ModulePath) -> (r: bool)
        requires
            self.wf(),
        ensures
            r == self@.contains_key(key@),
    {
        proof {
            lemma_assoc_contains(self.entries@, key@);
        }
        self.position_of(key).is_some()
    }

    /// The value stored for `key`, where one exists.
    pub fn get(&self, key: &ModulePath) -> (r: Option<&T>)
        requires
            self.wf(),
        ensures
            match r {
                Some(v) => self@.contains_key(key@) && *v == self@[key@],
                None => !self@.contains_key(key@),
            },
    {
        proof {
            lemma_assoc_contains(self.entries@, key@);
        }
        match self.position_of(key) {
            Some(i) => {
                proof {
                    lemma_assoc_index(self.entries@, i as int, key@);
                }
                Some(&self.entries[i].1)
            },
            None => None,
        }
    }

    /// Stores `value` for `key`, replacing any value stored before.
    pub fn insert(&mut self, key: ModulePath, value: T)
        requires
            old(self).wf(),
        ensures
            final(self).wf(),
            final(self)@ == old(self)@.insert(key@, value),
    {
        let ghost kv = key@;
        match self.position_of(&key) {
            Some(i) => {
                let ghost pre = self.entries@;
                proof {
                    assert(forall|j: int|
                        0 <= j < pre.len() && j != i ==> (#[trigger] pre[j]).0@ != kv);
                    lemma_assoc_remove(pre, i as int, kv);
                }
                self.entries.remove(i);
                let ghost mid = self.entries@;
                self.entries.push((key, value));
                proof {
                    assert(forall|j: int|
                        0 <= j < mid.len() ==> #[trigger] mid[j] == if j < i {
                            pre[j]
                        } else {
                            pre[j + 1]
                        });
                    assert(forall|j: int| 0 <= j < mid.len() ==> (#[trigger] mid[j]).0@ != kv);
                    assert(self.entries@.drop_last() =~= mid);
                    assert(assoc_view(self.entries@) == assoc_view(mid).insert(kv, value));
                    assert(assoc_view(pre).remove(kv).insert(kv, value) =~= assoc_view(pre).insert(
                        kv,
                        value,
                    ));
                }
            },
            None => {
                let ghost pre = self.entries@;
                self.entries.push((key, value));
                proof {
                    assert(self.entries@.drop_last() =~= pre);
                    assert(assoc_view(self.entries@) == assoc_view(pre).insert(kv, value));
                }
            },
        }
    }
}

} // verus!
