//! Traversal by recency that takes the entries out of the cache.

use vstd::prelude::*;

use crate::index::index_of;
use crate::index::slot_of;
use crate::index::SlotIndex;
use crate::iters::double_ended_iter_cursors::DoubleEndedIterCursors;
use crate::ConstLru;

verus! {

/// Iterates through the keys and values of the `ConstLru` from most-recently-used to least-recently-used, consuming the `ConstLru`
///
/// Does not change the LRU order of the elements.
pub struct IntoIter<K, V, const CAP: usize, I: SlotIndex> {
    pub(crate) cursors: DoubleEndedIterCursors<I, CAP>,
    pub(crate) const_lru: ConstLru<K, V, CAP, I>,
}

impl<K: Ord, V, const CAP: usize, I: SlotIndex> IntoIter<K, V, CAP, I> {
    /// Position in the recency list of the next entry from the front.
    pub open(crate) spec fn lo(&self) -> int {
        self.cursors.front(&self.const_lru)
    }

    /// Position in the recency list behind the next entry from the back.
    pub open(crate) spec fn hi(&self) -> int {
        self.cursors.back(&self.const_lru)
    }

    /// The links of the cache thread all its slots, the slots between the
    /// cursors are the occupied ones, and `len`, `head` and `tail` describe
    /// that stretch.
    pub open(crate) spec fn wf(&self) -> bool {
        &&& self.const_lru.threaded()
        &&& self.cursors.valid_for(&self.const_lru)
        &&& forall|s: int|
            0 <= s < CAP ==> (#[trigger] self.const_lru.keys@[s]).is_some() == (self.lo()
                <= self.const_lru.place@[s] < self.hi())
        &&& forall|s: int|
            0 <= s < CAP ==> (#[trigger] self.const_lru.values@[s]).is_some() == (self.lo()
                <= self.const_lru.place@[s] < self.hi())
        &&& self.const_lru.count() == (if self.lo() < self.hi() {
            self.hi() - self.lo()
        } else {
            0
        })
        &&& self.lo() < self.hi() ==> self.const_lru.head_slot()
            == self.const_lru.chain@[self.lo()] && self.const_lru.tail_slot()
            == self.const_lru.chain@[self.hi() - 1]
    }

    /// The entries not yet yielded, from most to least recently used.
    pub open(crate) spec fn remaining(&self) -> Seq<(K, V)> {
        Seq::new(
            self.const_lru.count() as nat,
            |j: int| self.const_lru.entry_at(self.const_lru.chain@[self.lo() + j]),
        )
    }

    /// An iterator that yields all entries of `const_lru`.
    pub fn new(const_lru: ConstLru<K, V, CAP, I>) -> (r: Self)
        requires
            const_lru.wf(),
        ensures
            r.wf(),
            r.remaining() == const_lru@,
    {
        let cursors = DoubleEndedIterCursors::new(&const_lru);
        let r = Self { cursors, const_lru };
        proof {
            assert(r.remaining() =~= const_lru@);
        }
        r
    }

    /// Takes the entry out of the occupied slot `i`.
    fn get_entry(&mut self, i: usize) -> (r: (K, V))
        requires
            i < CAP,
            old(self).const_lru.keys@.len() == CAP,
            old(self).const_lru.values@.len() == CAP,
            old(self).const_lru.keys@[i as int].is_some(),
            old(self).const_lru.values@[i as int].is_some(),
        ensures
            r == old(self).const_lru.entry_at(i as int),
            final(self).cursors == old(self).cursors,
            final(self).const_lru.keys@ == old(self).const_lru.keys@.update(i as int, None),
            final(self).const_lru.values@ == old(self).const_lru.values@.update(i as int, None),
            final(self).const_lru.len == old(self).const_lru.len,
            final(self).const_lru.head == old(self).const_lru.head,
            final(self).const_lru.tail == old(self).const_lru.tail,
            final(self).const_lru.bs_index == old(self).const_lru.bs_index,
            final(self).const_lru.nexts == old(self).const_lru.nexts,
            final(self).const_lru.prevs == old(self).const_lru.prevs,
            final(self).const_lru.chain == old(self).const_lru.chain,
            final(self).const_lru.place == old(self).const_lru.place,
            final(self).const_lru.rank == old(self).const_lru.rank,
    {
        let key = match self.const_lru.keys[i].take() {
            Some(k) => k,
            None => vstd::pervasive::unreached(),
        };
        let val = match self.const_lru.values[i].take() {
            Some(v) => v,
            None => vstd::pervasive::unreached(),
        };
        (key, val)
    }

    /// Yields the most recently used of the remaining entries and takes it
    /// out of the cache, whose `head` and `len` then tell of the rest.
    pub fn next(&mut self) -> (r: Option<(K, V)>)
        requires
            old(self).wf(),
        ensures
            final(self).wf(),
            match r {
                Some(kv) => old(self).remaining().len() > 0 && kv == old(
                    self,
                ).remaining().first() && final(self).remaining() == old(self).remaining().skip(1),
                None => old(self).remaining().len() == 0 && final(self).remaining() == old(
                    self,
                ).remaining(),
            },
    {
        proof {
            self.cursors.lemma_met(&self.const_lru);
        }
        if self.cursors.has_ended() {
            return None;
        }
        let i = self.cursors.get_from_head_idx();
        self.cursors.advance_from_head(&self.const_lru);
        // the entry leaves the cache, which goes on with those behind it
        self.const_lru.head = self.cursors.get_from_head();
        self.const_lru.len = index_of::<I>(slot_of(self.const_lru.len) - 1);
        let res = self.get_entry(i);
        proof {
            assert(self.remaining() =~= old(self).remaining().skip(1));
        }
        Some(res)
    }

    /// The number of entries that are left, as both bounds.
    pub fn size_hint(&self) -> (r: (usize, Option<usize>))
        requires
            self.wf(),
        ensures
            r == (self.remaining().len() as usize, Some(self.remaining().len() as usize)),
            self.remaining().len() <= CAP,
    {
        let l = slot_of(self.const_lru.len);
        (l, Some(l))
    }

    /// Yields the least recently used of the remaining entries and takes it
    /// out of the cache, whose `tail` and `len` then tell of the rest.
    pub fn next_back(&mut self) -> (r: Option<(K, V)>)
        requires
            old(self).wf(),
        ensures
            final(self).wf(),
            match r {
                Some(kv) => old(self).remaining().len() > 0 && kv == old(
                    self,
                ).remaining().last() && final(self).remaining() == old(self).remaining().drop_last(),
                None => old(self).remaining().len() == 0 && final(self).remaining() == old(
                    self,
                ).remaining(),
            },
    {
        proof {
            self.cursors.lemma_met(&self.const_lru);
        }
        if self.cursors.has_ended() {
            return None;
        }
        self.cursors.retreat_from_tail(&self.const_lru);
        let i = self.cursors.get_from_tail_idx();
        // the entry leaves the cache, which goes on with those before it
        let n = slot_of(self.const_lru.len);
        if n > 1 {
            self.const_lru.tail = self.const_lru.prevs[i];
        }
        self.const_lru.len = index_of::<I>(n - 1);
        let res = self.get_entry(i);
        proof {
            assert(self.remaining() =~= old(self).remaining().drop_last());
        }
        Some(res)
    }
}

} // verus!
