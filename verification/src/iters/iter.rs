//! Traversal by recency over shared references.

use vstd::prelude::*;

use crate::index::SlotIndex;
use crate::iters::double_ended_iter_cursors::DoubleEndedIterCursors;
use crate::ConstLru;

verus! {

/// Iterates through the keys and values of the `ConstLru` from most-recently-used to least-recently-used
///
/// Does not change the LRU order of the elements.
pub struct Iter<'a, K, V, const CAP: usize, I: SlotIndex> {
    pub(crate) cursors: DoubleEndedIterCursors<I, CAP>,
    pub(crate) const_lru: &'a ConstLru<K, V, CAP, I>,
}

impl<'a, K: Ord, V, const CAP: usize, I: SlotIndex> Iter<'a, K, V, CAP, I> {
    /// The iterator walks a well-formed cache and its cursors fit it.
    pub open(crate) spec fn wf(&self) -> bool {
        &&& self.const_lru.wf()
        &&& self.cursors.valid_for(self.const_lru)
        &&& self.cursors.within(self.const_lru)
    }

    /// The entries not yet yielded, from most to least recently used.
    pub open(crate) spec fn remaining(&self) -> Seq<(K, V)> {
        self.cursors.between(self.const_lru)
    }

    /// An iterator over all entries of `const_lru`.
    pub fn new(const_lru: &'a ConstLru<K, V, CAP, I>) -> (r: Self)
        requires
            const_lru.wf(),
        ensures
            r.wf(),
            r.remaining() == const_lru@,
    {
        let cursors = DoubleEndedIterCursors::new(const_lru);
        Self { cursors, const_lru }
    }

    /// The entry held in the occupied slot `i`.
    fn get_entry(&self, i: usize) -> (r: (&'a K, &'a V))
        requires
            self.const_lru.wf(),
            i < CAP,
            self.const_lru.place@[i as int] < self.const_lru.count(),
        ensures
            (*r.0, *r.1) == self.const_lru.entry_at(i as int),
    {
        let c: &'a ConstLru<K, V, CAP, I> = self.const_lru;
        (c.key_ref(i), c.value_ref(i))
    }

    /// Yields the most recently used of the remaining entries.
    pub fn next(&mut self) -> (r: Option<(&'a K, &'a V)>)
        requires
            old(self).wf(),
        ensures
            final(self).wf(),
            match r {
                Some(kv) => old(self).remaining().len() > 0 && (*kv.0, *kv.1) == old(
                    self,
                ).remaining().first() && final(self).remaining() == old(self).remaining().skip(1),
                None => old(self).remaining().len() == 0 && final(self).remaining() == old(
                    self,
                ).remaining(),
            },
    {
        proof {
            self.cursors.lemma_met(self.const_lru);
        }
        if self.cursors.has_ended() {
            return None;
        }
        // consume then increment
        let i = self.cursors.get_from_head_idx();
        self.cursors.advance_from_head(self.const_lru);
        Some(self.get_entry(i))
    }

    /// Bounds on the number of entries that are left: none below, the
    /// capacity above.
    pub fn size_hint(&self) -> (r: (usize, Option<usize>))
        requires
            self.wf(),
        ensures
            r == (0usize, Some(CAP)),
            self.remaining().len() <= CAP,
    {
        (0, Some(CAP))
    }

    /// Yields the least recently used of the remaining entries.
    pub fn next_back(&mut self) -> (r: Option<(&'a K, &'a V)>)
        requires
            old(self).wf(),
        ensures
            final(self).wf(),
            match r {
                Some(kv) => old(self).remaining().len() > 0 && (*kv.0, *kv.1) == old(
                    self,
                ).remaining().last() && final(self).remaining() == old(self).remaining().drop_last(),
                None => old(self).remaining().len() == 0 && final(self).remaining() == old(
                    self,
                ).remaining(),
            },
    {
        proof {
            self.cursors.lemma_met(self.const_lru);
        }
        if self.cursors.has_ended() {
            return None;
        }
        // decrement then consume
        self.cursors.retreat_from_tail(self.const_lru);
        let i = self.cursors.get_from_tail_idx();
        Some(self.get_entry(i))
    }
}

} // verus!
