//! What was made for dmabufs, kept as long as they exist.

use std::collections::HashSet;

use vstd::prelude::*;

verus! {

broadcast use vstd::std_specs::hash::group_hash_axioms;

/// Textures or render buffers, by the dmabuf they were made for.
#[derive(Debug)]
pub struct DmabufCache<T> {
    entries: Vec<(u64, T)>,
}

/// What is kept for a dmabuf: what was made for it first.
pub open spec fn kept_for<T>(entries: Seq<(u64, T)>, dmabuf: u64) -> Option<T>
    decreases entries.len(),
{
    if entries.len() == 0 {
        None
    } else if entries.first().0 == dmabuf {
        Some(entries.first().1)
    } else {
        kept_for(entries.drop_first(), dmabuf)
    }
}

/// The entries whose dmabufs still exist.
pub open spec fn alive_entries<T>(entries: Seq<(u64, T)>, alive: Set<u64>) -> Seq<(u64, T)>
    decreases entries.len(),
{
    if entries.len() == 0 {
        Seq::empty()
    } else {
        let before = alive_entries(entries.drop_last(), alive);
        if alive.contains(entries.last().0) {
            before.push(entries.last())
        } else {
            before
        }
    }
}

proof fn lemma_alive_prefix<T>(entries: Seq<(u64, T)>, alive: Set<u64>, n: int)
    requires
        0 <= n < entries.len(),
        alive_entries(entries.take(n), alive) == entries.take(n),
    ensures
        alive.contains(entries[n].0) ==> alive_entries(entries.take(n + 1), alive) == entries.take(
            n + 1,
        ),
        !alive.contains(entries[n].0) ==> alive_entries(entries, alive) == alive_entries(
            entries.remove(n),
            alive,
        ),
{
    assert(entries.take(n + 1).drop_last() =~= entries.take(n));
    assert(entries.take(n + 1) =~= entries.take(n).push(entries[n]));
    if !alive.contains(entries[n].0) {
        lemma_skip(entries, alive, n);
    }
}

proof fn lemma_skip<T>(entries: Seq<(u64, T)>, alive: Set<u64>, n: int)
    requires
        0 <= n < entries.len(),
        !alive.contains(entries[n].0),
    ensures
        alive_entries(entries, alive) == alive_entries(entries.remove(n), alive),
    decreases entries.len(),
{
    if n == entries.len() - 1 {
        assert(entries.remove(n) =~= entries.drop_last());
    } else {
        lemma_skip(entries.drop_last(), alive, n);
        assert(entries.drop_last().remove(n) =~= entries.remove(n).drop_last());
        assert(entries.remove(n).last() == entries.last());
    }
}

impl<T> DmabufCache<T> {
    pub closed spec fn view(&self) -> Seq<(u64, T)> {
        self.entries@
    }

    /// An empty cache.
    pub fn new() -> (cache: Self)
        ensures
            cache@ == Seq::<(u64, T)>::empty(),
    {
        DmabufCache { entries: Vec::new() }
    }

    /// What was made for a dmabuf.
    pub fn get(&self, dmabuf: u64) -> (kept: Option<&T>)
        ensures
            match kept {
                Some(kept) => kept_for(self@, dmabuf) == Some(*kept),
                None => kept_for(self@, dmabuf) is None,
            },
    {
        let ghost all = self.entries@;
        let mut i: usize = 0;
        assert(all.skip(0) =~= all);
        while i < self.entries.len()
            invariant
                i <= all.len(),
                all == self.entries@,
                kept_for(all.skip(i as int), dmabuf) == kept_for(all, dmabuf),
            decreases all.len() - i,
        {
            assert(all.skip(i as int).drop_first() =~= all.skip(i + 1));
            if self.entries[i].0 == dmabuf {
                return Some(&self.entries[i].1);
            }
            i = i + 1;
        }
        None
    }

    /// Keeps what was made for a dmabuf.
    pub fn insert(&mut self, dmabuf: u64, made: T)
        ensures
            final(self)@ == old(self)@.push((dmabuf, made)),
    {
        self.entries.push((dmabuf, made));
    }

    /// Drops what was made for dmabufs that are gone.
    pub fn retain(&mut self, alive: &HashSet<u64>)
        ensures
            final(self)@ == alive_entries(old(self)@, alive@),
    {
        let ghost before = self.entries@;
        let mut i: usize = 0;
        assert(before.take(0) =~= Seq::<(u64, T)>::empty());
        while i < self.entries.len()
            invariant
                i <= self.entries@.len(),
                alive_entries(self.entries@, alive@) == alive_entries(before, alive@),
                alive_entries(self.entries@.take(i as int), alive@) == self.entries@.take(i as int),
            decreases self.entries@.len() - i,
        {
            let ghost current = self.entries@;
            proof {
                lemma_alive_prefix(current, alive@, i as int);
            }
            let is_alive = alive.contains(&self.entries[i].0);
            if is_alive {
                i = i + 1;
            } else {
                self.entries.remove(i);
                assert(self.entries@.take(i as int) =~= current.take(i as int));
            }
        }
        assert(self.entries@.take(i as int) =~= self.entries@);
    }
}

/// What is kept with one more entry.
proof fn lemma_kept_push<T>(entries: Seq<(u64, T)>, entry: (u64, T), dmabuf: u64)
    ensures
        kept_for(entries.push(entry), dmabuf) == if kept_for(entries, dmabuf) is Some {
            kept_for(entries, dmabuf)
        } else if entry.0 == dmabuf {
            Some(entry.1)
        } else {
            None
        },
    decreases entries.len(),
{
    if entries.len() == 0 {
        assert(entries.push(entry).drop_first() =~= Seq::<(u64, T)>::empty());
        assert(entries.push(entry).first() == entry);
        assert(kept_for(Seq::<(u64, T)>::empty(), dmabuf) is None);
    } else {
        assert(entries.push(entry).drop_first() =~= entries.drop_first().push(entry));
        assert(entries.push(entry).first() == entries.first());
        lemma_kept_push(entries.drop_first(), entry, dmabuf);
    }
}

/// A dmabuf keeps what was made for it as long as it exists, and not longer: dropping the
/// entries of those that are gone leaves the others as they are.
pub proof fn law_kept_while_alive<T>(entries: Seq<(u64, T)>, alive: Set<u64>, dmabuf: u64)
    ensures
        kept_for(alive_entries(entries, alive), dmabuf) == if alive.contains(dmabuf) {
            kept_for(entries, dmabuf)
        } else {
            None
        },
    decreases entries.len(),
{
    if entries.len() > 0 {
        let rest = entries.drop_last();
        let last = entries.last();
        law_kept_while_alive(rest, alive, dmabuf);
        assert(entries =~= rest.push(last));
        lemma_kept_push(rest, last, dmabuf);
        lemma_kept_push(alive_entries(rest, alive), last, dmabuf);
    }
}

/// A dmabuf is imported once: what was made for it first stays, whatever is made later.
pub proof fn law_first_import_stays<T>(entries: Seq<(u64, T)>, entry: (u64, T), dmabuf: u64)
    requires
        kept_for(entries, dmabuf) is Some,
    ensures
        kept_for(entries.push(entry), dmabuf) == kept_for(entries, dmabuf),
{
    lemma_kept_push(entries, entry, dmabuf);
}

/// What is kept for a buffer was made for that very buffer: it stands beside it in the cache, and
/// nothing stands beside it before. Nothing is kept only if the buffer is not there.
pub proof fn law_kept_for_the_buffer<T>(entries: Seq<(u64, T)>, dmabuf: u64)
    ensures
        match kept_for(entries, dmabuf) {
            Some(kept) => exists|i: int|
                0 <= i < entries.len() && #[trigger] entries[i] == (dmabuf, kept) && forall|j: int|
                    0 <= j < i ==> (#[trigger] entries[j]).0 != dmabuf,
            None => forall|i: int| 0 <= i < entries.len() ==> (#[trigger] entries[i]).0 != dmabuf,
        },
    decreases entries.len(),
{
    if entries.len() > 0 {
        let rest = entries.drop_first();
        assert(entries.first() == entries[0]);
        assert forall|i: int| 0 <= i < rest.len() implies #[trigger] rest[i] == entries[i + 1] by {}
        if entries[0].0 == dmabuf {
            assert(entries[0] == (dmabuf, entries[0].1));
        } else {
            law_kept_for_the_buffer(rest, dmabuf);
            match kept_for(rest, dmabuf) {
                Some(kept) => {
                    let i = choose|i: int|
                        0 <= i < rest.len() && #[trigger] rest[i] == (dmabuf, kept) && forall|j: int|
                            0 <= j < i ==> (#[trigger] rest[j]).0 != dmabuf;
                    assert(entries[i + 1] == (dmabuf, kept));
                    assert forall|j: int| 0 <= j < i + 1 implies (#[trigger] entries[j]).0 != dmabuf by {
                        if j > 0 {
                            assert(rest[j - 1] == entries[j]);
                        }
                    }
                },
                None => {
                    assert forall|i: int| 0 <= i < entries.len() implies (#[trigger] entries[i]).0
                        != dmabuf by {
                        if i > 0 {
                            assert(rest[i - 1] == entries[i]);
                        }
                    }
                },
            }
        }
    }
}

/// Retaining goes through the entries one after the other and keeps exactly those of buffers that
/// are alive, as they are.
pub proof fn law_retained_in_order<T>(
    a: Seq<(u64, T)>,
    b: Seq<(u64, T)>,
    entry: (u64, T),
    alive: Set<u64>,
)
    ensures
        alive_entries(a + b, alive) == alive_entries(a, alive) + alive_entries(b, alive),
        alive.contains(entry.0) ==> alive_entries(seq![entry], alive) == seq![entry],
        !alive.contains(entry.0) ==> alive_entries(seq![entry], alive) == Seq::<(u64, T)>::empty(),
    decreases b.len(),
{
    let one = seq![entry];
    assert(one.drop_last() =~= Seq::<(u64, T)>::empty());
    assert(alive_entries(one.drop_last(), alive) =~= Seq::<(u64, T)>::empty());
    assert(one.last() == entry);
    if alive.contains(entry.0) {
        assert(alive_entries(one, alive) =~= seq![entry]);
    }
    if b.len() == 0 {
        assert(a + b =~= a);
        assert(alive_entries(a, alive) + alive_entries(b, alive) =~= alive_entries(a, alive));
    } else {
        law_retained_in_order(a, b.drop_last(), entry, alive);
        assert((a + b).drop_last() =~= a + b.drop_last());
        assert((a + b).last() == b.last());
        assert(alive_entries(a + b, alive) =~= alive_entries(a, alive) + alive_entries(b, alive));
    }
}

/// What is added is kept for its buffer, unless something is already, and for no other.
pub proof fn lemma_pushed_entry<T>(entries: Seq<(u64, T)>, dmabuf: u64, made: T, other: u64)
    ensures
        kept_for(entries.push((dmabuf, made)), other) == if kept_for(entries, other) is Some {
            kept_for(entries, other)
        } else if other == dmabuf {
            Some(made)
        } else {
            None
        },
    decreases entries.len(),
{
    let all = entries.push((dmabuf, made));
    if entries.len() == 0 {
        assert(all.first() == (dmabuf, made));
        assert(kept_for(all.drop_first(), other) is None);
    } else {
        assert(all.first() == entries.first());
        assert(all.drop_first() =~= entries.drop_first().push((dmabuf, made)));
        lemma_pushed_entry(entries.drop_first(), dmabuf, made, other);
    }
}

} // verus!
