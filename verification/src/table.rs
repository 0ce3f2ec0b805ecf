//! A small map from object ids to values that remembers the order of insertion.

use vstd::prelude::*;

verus! {

/// A map from object ids to values, kept in insertion order.
#[derive(Debug)]
pub struct Table<V> {
    entries: Vec<(u64, V)>,
}

/// The position of a key in a list of entries.
spec fn index_of_key<V>(entries: Seq<(u64, V)>, key: u64) -> int {
    choose|i: int| 0 <= i < entries.len() && entries[i].0 == key
}

spec fn has_key<V>(entries: Seq<(u64, V)>, key: u64) -> bool {
    exists|i: int| 0 <= i < entries.len() && entries[i].0 == key
}

spec fn keys_distinct<V>(entries: Seq<(u64, V)>) -> bool {
    forall|i: int, j: int| 0 <= i < j < entries.len() ==> entries[i].0 != entries[j].0
}

spec fn as_map<V>(entries: Seq<(u64, V)>) -> Map<u64, V> {
    Map::new(
        |key: u64| has_key(entries, key),
        |key: u64| entries[index_of_key(entries, key)].1,
    )
}

proof fn lemma_at<V>(entries: Seq<(u64, V)>, i: int)
    requires
        keys_distinct(entries),
        0 <= i < entries.len(),
    ensures
        as_map(entries).dom().contains(entries[i].0),
        as_map(entries)[entries[i].0] == entries[i].1,
        index_of_key(entries, entries[i].0) == i,
{
    let k = index_of_key(entries, entries[i].0);
    assert(0 <= k < entries.len() && entries[k].0 == entries[i].0);
}

proof fn lemma_filter_keeps_others(ids: Seq<u64>, id: u64)
    requires
        !ids.contains(id),
    ensures
        ids.filter(|k: u64| k != id) == ids,
    decreases ids.len(),
{
    reveal(Seq::filter);
    if ids.len() > 0 {
        assert(ids.last() != id) by {
            assert(ids[ids.len() - 1] == ids.last());
        }
        assert forall|i: int| 0 <= i < ids.drop_last().len() implies ids.drop_last()[i] != id by {
            assert(ids[i] == ids.drop_last()[i]);
        }
        lemma_filter_keeps_others(ids.drop_last(), id);
        assert(ids.drop_last().push(ids.last()) =~= ids);
    }
}

proof fn lemma_filter_removes_one(ids: Seq<u64>, i: int, id: u64)
    requires
        ids.no_duplicates(),
        0 <= i < ids.len(),
        ids[i] == id,
    ensures
        ids.filter(|k: u64| k != id) == ids.remove(i),
    decreases ids.len(),
{
    reveal(Seq::filter);
    let rest = ids.drop_last();
    if i == ids.len() - 1 {
        assert forall|j: int| 0 <= j < rest.len() implies rest[j] != id by {
            assert(rest[j] == ids[j]);
        }
        lemma_filter_keeps_others(rest, id);
        assert(ids.remove(i) =~= rest);
    } else {
        assert(ids[i] != ids[ids.len() - 1]);
        lemma_filter_removes_one(rest, i, id);
        assert(ids.remove(i) =~= rest.remove(i).push(ids.last()));
    }
}

impl<V> Table<V> {
    /// No id occurs twice.
    pub closed spec fn wf(&self) -> bool {
        keys_distinct(self.entries@)
    }

    pub closed spec fn view(&self) -> Map<u64, V> {
        as_map(self.entries@)
    }

    /// The ids in insertion order.
    pub closed spec fn order(&self) -> Seq<u64> {
        self.entries@.map_values(|e: (u64, V)| e.0)
    }

    /// The ids in insertion order are the keys of the map, each once.
    pub proof fn lemma_order(&self)
        requires
            self.wf(),
        ensures
            self.order().no_duplicates(),
            forall|key: u64| #[trigger] self.order().contains(key) <==> self@.dom().contains(key),
            self@.dom() == self.order().to_set(),
    {
        assert forall|key: u64| #[trigger] self.order().contains(key) <==> self@.dom().contains(
            key,
        ) by {
            if self.order().contains(key) {
                let i = choose|i: int| 0 <= i < self.order().len() && self.order()[i] == key;
                assert(self.entries@[i].0 == key);
            }
            if self@.dom().contains(key) {
                let i = index_of_key(self.entries@, key);
                assert(self.order()[i] == key);
            }
        }
        assert(self@.dom() =~= self.order().to_set());
    }

    /// An empty table.
    pub fn new() -> (table: Self)
        ensures
            table.wf(),
            table@ == Map::<u64, V>::empty(),
            table.order() == Seq::<u64>::empty(),
    {
        let table = Table { entries: Vec::new() };
        assert(table@ =~= Map::<u64, V>::empty());
        assert(table.order() =~= Seq::<u64>::empty());
        table
    }

    /// The number of entries.
    pub fn len(&self) -> (n: usize)
        ensures
            n == self.order().len(),
    {
        self.entries.len()
    }

    /// The position of an id.
    pub fn position(&self, key: u64) -> (position: Option<usize>)
        requires
            self.wf(),
        ensures
            match position {
                Some(i) => i < self.order().len() && self.order()[i as int] == key
                    && self@.dom().contains(key),
                None => !self@.dom().contains(key),
            },
    {
        let mut i: usize = 0;
        while i < self.entries.len()
            invariant
                self.wf(),
                i <= self.entries@.len(),
                forall|j: int| 0 <= j < i ==> (#[trigger] self.entries@[j]).0 != key,
            decreases self.entries@.len() - i,
        {
            if self.entries[i].0 == key {
                proof {
                    lemma_at(self.entries@, i as int);
                }
                return Some(i);
            }
            i = i + 1;
        }
        None
    }

    /// The entry at a position.
    pub fn entry(&self, i: usize) -> (entry: (u64, &V))
        requires
            self.wf(),
            i < self.order().len(),
        ensures
            entry.0 == self.order()[i as int],
            self@.dom().contains(entry.0),
            *entry.1 == self@[entry.0],
    {
        proof {
            lemma_at(self.entries@, i as int);
        }
        (self.entries[i].0, &self.entries[i].1)
    }

    /// Stores a value under an id, replacing the one that was there.
    pub fn insert(&mut self, key: u64, value: V)
        requires
            old(self).wf(),
        ensures
            final(self).wf(),
            final(self)@ == old(self)@.insert(key, value),
            final(self).order() == if old(self)@.dom().contains(key) {
                old(self).order()
            } else {
                old(self).order().push(key)
            },
    {
        let ghost before = *self;
        match self.position(key) {
            Some(i) => {
                self.entries[i] = (key, value);
                proof {
                    assert(self.entries@ == before.entries@.update(i as int, (key, value)));
                    assert(before.entries@[i as int].0 == key);
                    assert(keys_distinct(self.entries@));
                    assert(self.order() =~= before.order());
                    assert forall|k: u64| self@.dom().contains(k) == before@.insert(
                        key,
                        value,
                    ).dom().contains(k) by {
                        if has_key(self.entries@, k) {
                            let j = index_of_key(self.entries@, k);
                            assert(before.entries@[j].0 == k);
                        }
                        if has_key(before.entries@, k) {
                            let j = index_of_key(before.entries@, k);
                            assert(self.entries@[j].0 == k);
                        }
                        assert(self.entries@[i as int].0 == key);
                    }
                    assert forall|k: u64| self@.dom().contains(k) implies self@[k]
                        == before@.insert(key, value)[k] by {
                        let j = index_of_key(self.entries@, k);
                        lemma_at(self.entries@, j);
                        lemma_at(before.entries@, j);
                    }
                    assert(self@ =~= before@.insert(key, value));
                }
            },
            None => {
                self.entries.push((key, value));
                proof {
                    let n = before.entries@.len() as int;
                    assert forall|i: int, j: int| 0 <= i < j < self.entries@.len() implies
                        self.entries@[i].0 != self.entries@[j].0 by {
                        if j == n {
                            assert(self.entries@[i] == before.entries@[i]);
                            if before.entries@[i].0 == key {
                                assert(has_key(before.entries@, key));
                            }
                        }
                    }
                    assert(self.order() =~= before.order().push(key));
                    assert(self.entries@[n] == (key, value));
                    assert forall|k: u64| self@.dom().contains(k) == before@.insert(
                        key,
                        value,
                    ).dom().contains(k) by {
                        if has_key(self.entries@, k) && k != key {
                            let j = index_of_key(self.entries@, k);
                            assert(before.entries@[j].0 == k);
                        }
                        if has_key(before.entries@, k) {
                            let j = index_of_key(before.entries@, k);
                            assert(self.entries@[j].0 == k);
                        }
                    }
                    assert forall|k: u64| self@.dom().contains(k) implies self@[k]
                        == before@.insert(key, value)[k] by {
                        let j = index_of_key(self.entries@, k);
                        lemma_at(self.entries@, j);
                        if j != n {
                            lemma_at(before.entries@, j);
                        }
                    }
                    assert(self@ =~= before@.insert(key, value));
                }
            },
        }
    }

    /// Removes an id. The others keep their order.
    pub fn remove(&mut self, key: u64)
        requires
            old(self).wf(),
        ensures
            final(self).wf(),
            final(self)@ == old(self)@.remove(key),
            final(self).order() == old(self).order().filter(|k: u64| k != key),
    {
        let ghost before = *self;
        match self.position(key) {
            Some(i) => {
                let _removed = self.entries.remove(i);
                proof {
                    assert(self.entries@ == before.entries@.remove(i as int));
                    assert(before.entries@[i as int].0 == key);
                    let from = |j: int|
                        if j < i {
                            j
                        } else {
                            j + 1
                        };
                    assert forall|j: int| 0 <= j < self.entries@.len() implies self.entries@[j]
                        == before.entries@[#[trigger] from(j)] by {}
                    assert forall|a: int, b: int| 0 <= a < b < self.entries@.len() implies
                        self.entries@[a].0 != self.entries@[b].0 by {
                        assert(self.entries@[a] == before.entries@[from(a)]);
                        assert(self.entries@[b] == before.entries@[from(b)]);
                    }
                    assert forall|k: u64| self@.dom().contains(k) == before@.remove(
                        key,
                    ).dom().contains(k) by {
                        if has_key(self.entries@, k) {
                            let j = index_of_key(self.entries@, k);
                            assert(before.entries@[from(j)].0 == k);
                            assert(from(j) != i);
                        }
                        if has_key(before.entries@, k) && k != key {
                            let j = index_of_key(before.entries@, k);
                            let to = if j < i {
                                j
                            } else {
                                j - 1
                            };
                            assert(self.entries@[to].0 == k);
                        }
                    }
                    assert forall|k: u64| self@.dom().contains(k) implies self@[k]
                        == before@.remove(key)[k] by {
                        let j = index_of_key(self.entries@, k);
                        lemma_at(self.entries@, j);
                        lemma_at(before.entries@, from(j));
                    }
                    assert(self@ =~= before@.remove(key));
                    before.lemma_order();
                    lemma_filter_removes_one(before.order(), i as int, key);
                    assert(self.order() =~= before.order().remove(i as int));
                }
            },
            None => {
                assert(self@ =~= before@.remove(key));
                proof {
                    before.lemma_order();
                    lemma_filter_keeps_others(before.order(), key);
                }
            },
        }
    }
}

} // verus!
