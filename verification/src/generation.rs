//! Load generations: every reload of a document node begins a new one, and
//! what was fetched for an older one is dropped when it arrives.

use vstd::prelude::*;

verus! {

/// The generation of each reference that has been reloaded, newest entry
/// of a reference first in effect: a reference goes by its first entry.
pub struct Generations {
    pub entries: Vec<(u64, u64)>,
}

/// The generation of `handle`: that of its first entry, or 0 where it has
/// none.
pub open spec fn generation_of(entries: Seq<(u64, u64)>, handle: u64) -> u64
    decreases entries.len(),
{
    if entries.len() == 0 {
        0
    } else if entries.first().0 == handle {
        entries.first().1
    } else {
        generation_of(entries.drop_first(), handle)
    }
}

/// The generation of `handle` among the entries from `from` on is that of
/// the first of them with that reference.
proof fn lemma_generation_from(entries: Seq<(u64, u64)>, handle: u64, from: int)
    requires
        0 <= from <= entries.len(),
        forall|k: int| 0 <= k < from ==> (#[trigger] entries[k]).0 != handle,
    ensures
        generation_of(entries, handle) == generation_of(entries.skip(from), handle),
    decreases from,
{
    if from > 0 {
        lemma_generation_from(entries, handle, from - 1);
        let tail = entries.skip(from - 1);
        assert(tail.first() == entries[from - 1]);
        assert(tail.drop_first() =~= entries.skip(from));
    } else {
        assert(entries.skip(0) =~= entries);
    }
}

/// Changing the first entry of `handle` changes no other reference's
/// generation.
proof fn lemma_generation_update(entries: Seq<(u64, u64)>, at: int, handle: u64, next: u64, other: u64)
    requires
        0 <= at < entries.len(),
        entries[at].0 == handle,
        forall|k: int| 0 <= k < at ==> (#[trigger] entries[k]).0 != handle,
    ensures
        generation_of(entries.update(at, (handle, next)), handle) == next,
        other != handle ==> generation_of(entries.update(at, (handle, next)), other)
            == generation_of(entries, other),
    decreases entries.len(),
{
    let updated = entries.update(at, (handle, next));
    if at == 0 {
        assert(updated.first() == (handle, next));
        assert(updated.drop_first() =~= entries.drop_first());
    } else {
        assert(updated.first() == entries.first());
        assert(entries.first() == entries[0]);
        assert(updated.drop_first() =~= entries.drop_first().update(at - 1, (handle, next)));
        assert forall|k: int| 0 <= k < at - 1 implies (#[trigger] entries.drop_first()[k]).0
            != handle by {
            assert(entries.drop_first()[k] == entries[k + 1]);
        }
        lemma_generation_update(entries.drop_first(), at - 1, handle, next, other);
    }
}

/// A new first entry decides the generation of its reference and of no
/// other.
proof fn lemma_generation_push(entries: Seq<(u64, u64)>, handle: u64, next: u64, other: u64)
    requires
        forall|k: int| 0 <= k < entries.len() ==> (#[trigger] entries[k]).0 != handle,
    ensures
        generation_of(entries.push((handle, next)), handle) == next,
        other != handle ==> generation_of(entries.push((handle, next)), other) == generation_of(
            entries,
            other,
        ),
    decreases entries.len(),
{
    let pushed = entries.push((handle, next));
    if entries.len() == 0 {
        assert(pushed.first() == (handle, next));
        assert(pushed.drop_first() =~= Seq::empty());
        assert(generation_of(pushed.drop_first(), other) == 0);
        assert(generation_of(entries, other) == 0);
    } else {
        assert(pushed.first() == entries.first());
        assert(entries.first() == entries[0]);
        assert(pushed.drop_first() =~= entries.drop_first().push((handle, next)));
        assert forall|k: int| 0 <= k < entries.drop_first().len() implies (
        #[trigger] entries.drop_first()[k]).0 != handle by {
            assert(entries.drop_first()[k] == entries[k + 1]);
        }
        lemma_generation_push(entries.drop_first(), handle, next, other);
    }
}

impl Generations {
    /// No reference has been reloaded.
    pub fn new() -> (out: Self)
        ensures
            out.entries@.len() == 0,
    {
        Generations { entries: Vec::new() }
    }

    /// The place of the first entry of `handle`.
    fn find(&self, handle: u64) -> (at: Option<usize>)
        ensures
            match at {
                Some(at) => at < self.entries@.len() && self.entries@[at as int].0 == handle
                    && forall|k: int| 0 <= k < at ==> (#[trigger] self.entries@[k]).0 != handle,
                None => forall|k: int|
                    0 <= k < self.entries@.len() ==> (#[trigger] self.entries@[k]).0 != handle,
            },
    {
        let mut i: usize = 0;
        while i < self.entries.len()
            invariant
                i <= self.entries.len(),
                forall|k: int| 0 <= k < i ==> (#[trigger] self.entries@[k]).0 != handle,
            decreases self.entries.len() - i,
        {
            if self.entries[i].0 == handle {
                return Some(i);
            }
            i += 1;
        }
        None
    }

    /// The generation of `handle`: 0 until it is reloaded.
    pub fn current(&self, handle: u64) -> (out: u64)
        ensures
            out == generation_of(self.entries@, handle),
    {
        match self.find(handle) {
            Some(at) => {
                proof {
                    lemma_generation_from(self.entries@, handle, at as int);
                    assert(self.entries@.skip(at as int).first() == self.entries@[at as int]);
                }
                self.entries[at].1
            },
            None => {
                proof {
                    lemma_generation_from(self.entries@, handle, self.entries@.len() as int);
                    assert(self.entries@.skip(self.entries@.len() as int) =~= Seq::empty());
                }
                0
            },
        }
    }

    /// Whether what was fetched for `handle` in `generation` is still
    /// wanted: it is where no reload has come since.
    pub fn accepts(&self, handle: u64, generation: u64) -> (out: bool)
        ensures
            out == (generation == generation_of(self.entries@, handle)),
    {
        self.current(handle) == generation
    }

    /// Begins a new generation of `handle` and gives its number; `None`,
    /// with nothing changed, where the numbers have run out.
    pub fn reload(&mut self, handle: u64) -> (out: Option<u64>)
        ensures
            out is Some == (generation_of(old(self).entries@, handle) < u64::MAX),
            out is Some ==> out.unwrap() == generation_of(old(self).entries@, handle) + 1,
            out is Some ==> generation_of(final(self).entries@, handle) == out.unwrap(),
            out is None ==> final(self).entries@ == old(self).entries@,
            forall|other: u64|
                other != handle ==> generation_of(final(self).entries@, other) == generation_of(
                    old(self).entries@,
                    other,
                ),
    {
        let now = self.current(handle);
        if now == u64::MAX {
            return None;
        }
        let next = now + 1;
        match self.find(handle) {
            Some(at) => {
                proof {
                    assert forall|other: u64| other != handle implies generation_of(
                        self.entries@.update(at as int, (handle, next)),
                        other,
                    ) == generation_of(self.entries@, other) by {
                        lemma_generation_update(self.entries@, at as int, handle, next, other);
                    }
                    lemma_generation_update(self.entries@, at as int, handle, next, handle);
                }
                self.entries.set(at, (handle, next));
            },
            None => {
                proof {
                    assert forall|other: u64| other != handle implies generation_of(
                        self.entries@.push((handle, next)),
                        other,
                    ) == generation_of(self.entries@, other) by {
                        lemma_generation_push(self.entries@, handle, next, other);
                    }
                    lemma_generation_push(self.entries@, handle, next, handle);
                }
                self.entries.push((handle, next));
            },
        }
        Some(next)
    }
}

} // verus!
