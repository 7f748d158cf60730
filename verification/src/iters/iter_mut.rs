//! Traversal by recency that hands the values out for writing.

use vstd::prelude::*;

use crate::index::SlotIndex;
use crate::iters::double_ended_iter_cursors::DoubleEndedIterCursors;
use crate::ConstLru;

verus! {

/// Iterates through the keys and mutable values of the `ConstLru` from most-recently-used to least-recently-used
///
/// Does not change the LRU order of the elements.
pub struct IterMut<'a, K, V, const CAP: usize, I: SlotIndex> {
    pub(crate) cursors: DoubleEndedIterCursors<I, CAP>,
    pub(crate) const_lru: &'a mut ConstLru<K, V, CAP, I>,
}

impl<'a, K: Ord, V, const CAP: usize, I: SlotIndex> IterMut<'a, K, V, CAP, I> {
    /// The iterator walks a well-formed cache and its cursors fit it.
    pub open(crate) spec fn wf(&self) -> bool {
        &&& self.const_lru.wf()
        &&& self.cursors.valid_for(&*self.const_lru)
        &&& self.cursors.within(&*self.const_lru)
    }

    /// The entries of the cache as they stand, from most to least recently
    /// used.
    pub open(crate) spec fn entries(&self) -> Seq<(K, V)> {
        self.const_lru@
    }

    /// The borrow of the cache that the iterator holds.
    pub open(crate) spec fn borrowed(&self) -> &'a mut ConstLru<K, V, CAP, I> {
        self.const_lru
    }

    /// Number of entries yielded from the front.
    pub open(crate) spec fn front(&self) -> int {
        if self.remaining().len() == 0 {
            0
        } else {
            self.cursors.front(&*self.const_lru)
        }
    }

    /// The entries not yet yielded, from most to least recently used.
    pub open(crate) spec fn remaining(&self) -> Seq<(K, V)> {
        self.cursors.between(&*self.const_lru)
    }

    /// An iterator over all entries of `const_lru`.
    pub fn new(const_lru: &'a mut ConstLru<K, V, CAP, I>) -> (r: Self)
        requires
            old(const_lru).wf(),
        ensures
            r.wf(),
            r.remaining() == old(const_lru)@,
            r.entries() == old(const_lru)@,
            r.front() == 0,
            *final(r.borrowed()) == *final(const_lru),
    {
        let cursors = DoubleEndedIterCursors::new(&*const_lru);
        Self { cursors, const_lru }
    }

    /// Yields the most recently used of the remaining entries, its value for
    /// writing. What is written shows in the cache at the place of the
    /// entry, and nowhere else.
    pub fn next(&mut self) -> (r: Option<(&K, &mut V)>)
        requires
            old(self).wf(),
        ensures
            final(self).wf(),
            *final(final(self).borrowed()) == *final(old(self).borrowed()),
            match r {
                Some(kv) => {
                    &&& old(self).remaining().len() > 0
                    &&& (*kv.0, *kv.1) == old(self).remaining().first()
                    &&& final(self).remaining() == old(self).remaining().skip(1)
                    &&& final(self).entries() == old(self).entries().update(
                        old(self).front(),
                        (*kv.0, *final(kv.1)),
                    )
                    &&& 0 <= old(self).front() < old(self).entries().len()
                    &&& final(self).remaining().len() > 0 ==> final(self).front() == old(
                        self,
                    ).front() + 1
                },
                None => {
                    &&& old(self).remaining().len() == 0
                    &&& final(self).remaining() == old(self).remaining()
                    &&& final(self).entries() == old(self).entries()
                },
            },
    {
        proof {
            self.cursors.lemma_met(&*self.const_lru);
        }
        if self.cursors.has_ended() {
            return None;
        }
        // consume then increment
        let i = self.cursors.get_from_head_idx();
        self.cursors.advance_from_head(&*self.const_lru);
        let ghost p = self.const_lru.place@[i as int];
        let ghost before = self.const_lru@;
        let ghost rest = self.cursors.between(&*self.const_lru);
        proof {
            assert forall|v: V| #[trigger]
                before.update(p, (before[p].0, v)).subrange(
                    self.cursors.front(&*self.const_lru),
                    self.cursors.back(&*self.const_lru),
                ) =~= rest by {}
        }
        Some(self.const_lru.entry_mut(i))
    }

    /// Bounds on the number of entries that are left: none below, the
    /// capacity above.
    pub fn size_hint(&self) -> (r: (usize, Option<usize>))
        requires
            self.wf(),
        ensures
            r == (0usize, Some(CAP)),
            self.remaining().len() <= CAP,
    {
        (0, Some(CAP))
    }

    /// Yields the least recently used of the remaining entries, its value
    /// for writing. What is written shows in the cache at the place of the
    /// entry, and nowhere else.
    pub fn next_back(&mut self) -> (r: Option<(&K, &mut V)>)
        requires
            old(self).wf(),
        ensures
            final(self).wf(),
            *final(final(self).borrowed()) == *final(old(self).borrowed()),
            match r {
                Some(kv) => {
                    &&& old(self).remaining().len() > 0
                    &&& (*kv.0, *kv.1) == old(self).remaining().last()
                    &&& final(self).remaining() == old(self).remaining().drop_last()
                    &&& final(self).entries() == old(self).entries().update(
                        old(self).front() + old(self).remaining().len() - 1,
                        (*kv.0, *final(kv.1)),
                    )
                    &&& 0 <= old(self).front() + old(self).remaining().len() - 1 < old(
                        self,
                    ).entries().len()
                    &&& final(self).remaining().len() > 0 ==> final(self).front() == old(
                        self,
                    ).front()
                },
                None => {
                    &&& old(self).remaining().len() == 0
                    &&& final(self).remaining() == old(self).remaining()
                    &&& final(self).entries() == old(self).entries()
                },
            },
    {
        proof {
            self.cursors.lemma_met(&*self.const_lru);
        }
        if self.cursors.has_ended() {
            return None;
        }
        // decrement then consume
        self.cursors.retreat_from_tail(&*self.const_lru);
        let i = self.cursors.get_from_tail_idx();
        let ghost p = self.const_lru.place@[i as int];
        let ghost before = self.const_lru@;
        let ghost rest = self.cursors.between(&*self.const_lru);
        proof {
            assert forall|v: V| #[trigger]
                before.update(p, (before[p].0, v)).subrange(
                    self.cursors.front(&*self.const_lru),
                    self.cursors.back(&*self.const_lru),
                ) =~= rest by {}
        }
        Some(self.const_lru.entry_mut(i))
    }
}

} // verus!
