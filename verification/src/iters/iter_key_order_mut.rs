//! Traversal by key that hands the values out for writing.

use vstd::prelude::*;

use crate::index::index_of;
use crate::index::slot_of;
use crate::index::SlotIndex;
use crate::ConstLru;

verus! {

/// Iterates through the keys and mutable values of the `ConstLru` in the keys' sorted order
///
/// Does not change the LRU order of the elements.
pub struct IterKeyOrderMut<'a, K, V, const CAP: usize, I: SlotIndex> {
    /// from_smallest_bsi == from_largest_bsi means ended
    pub(crate) from_smallest_bsi: I,
    pub(crate) from_largest_bsi: I,
    pub(crate) const_lru: &'a mut ConstLru<K, V, CAP, I>,
}

impl<'a, K: Ord, V, const CAP: usize, I: SlotIndex> IterKeyOrderMut<'a, K, V, CAP, I> {
    /// Position in the order index of the next entry from the front.
    pub open(crate) spec fn lo(&self) -> int {
        self.from_smallest_bsi.as_nat() as int
    }

    /// Position in the order index behind the next entry from the back.
    pub open(crate) spec fn hi(&self) -> int {
        self.from_largest_bsi.as_nat() as int
    }

    /// The iterator walks a well-formed cache and its positions lie in it.
    pub open(crate) spec fn wf(&self) -> bool {
        &&& self.const_lru.wf()
        &&& 0 <= self.lo() <= self.hi() <= self.const_lru.count()
    }

    /// The borrow of the cache that the iterator holds.
    pub open(crate) spec fn borrowed(&self) -> &'a mut ConstLru<K, V, CAP, I> {
        self.const_lru
    }

    /// The entries of the cache as they stand, in ascending order of their
    /// keys.
    pub open(crate) spec fn entries(&self) -> Seq<(K, V)> {
        self.const_lru.by_key()
    }

    /// The entries not yet yielded, in ascending order of their keys.
    pub open(crate) spec fn remaining(&self) -> Seq<(K, V)> {
        self.const_lru.by_key().subrange(self.lo(), self.hi())
    }

    /// An iterator over all entries of `const_lru`.
    pub fn new(const_lru: &'a mut ConstLru<K, V, CAP, I>) -> (r: Self)
        requires
            old(const_lru).wf(),
        ensures
            r.wf(),
            r.remaining() == old(const_lru).by_key(),
            r.entries() == old(const_lru).by_key(),
            r.lo() == 0,
            *final(r.borrowed()) == *final(const_lru),
    {
        let n = const_lru.len();
        let r = Self { from_smallest_bsi: index_of::<I>(0), from_largest_bsi: n, const_lru };
        proof {
            assert(r.remaining() =~= r.entries());
        }
        r
    }

    /// The key and, for writing, the value at position `bs_i` of the order
    /// index.
    fn get_entry_mut(&mut self, bs_i: I) -> (r: (&K, &mut V))
        requires
            old(self).const_lru.wf(),
            bs_i.as_nat() < old(self).const_lru.count(),
        ensures
            final(self).const_lru.wf(),
            final(self).from_smallest_bsi == old(self).from_smallest_bsi,
            final(self).from_largest_bsi == old(self).from_largest_bsi,
            final(self).const_lru.count() == old(self).const_lru.count(),
            *final(final(self).const_lru) == *final(old(self).const_lru),
            (*r.0, *r.1) == old(self).entries()[bs_i.as_nat() as int],
            final(self).entries() == old(self).entries().update(
                bs_i.as_nat() as int,
                (*r.0, *final(r.1)),
            ),
    {
        let i = slot_of(self.const_lru.bs_index[slot_of(bs_i)]);
        self.const_lru.entry_mut(i)
    }

    /// Whether all entries have been yielded.
    fn has_ended(&self) -> (r: bool)
        ensures
            r == (self.lo() == self.hi()),
    {
        self.from_smallest_bsi.same(self.from_largest_bsi)
    }

    /// Yields the remaining entry with the least key, its value for writing.
    /// What is written shows in the cache at the place of the entry, and
    /// nowhere else.
    pub fn next(&mut self) -> (r: Option<(&K, &mut V)>)
        requires
            old(self).wf(),
        ensures
            final(self).wf(),
            *final(final(self).borrowed()) == *final(old(self).borrowed()),
            match r {
                Some(kv) => {
                    &&& old(self).remaining().len() > 0
                    &&& (*kv.0, *kv.1) == old(self).remaining().first()
                    &&& final(self).remaining() == old(self).remaining().skip(1)
                    &&& final(self).entries() == old(self).entries().update(
                        old(self).lo(),
                        (*kv.0, *final(kv.1)),
                    )
                    &&& final(self).lo() == old(self).lo() + 1
                },
                None => {
                    &&& old(self).remaining().len() == 0
                    &&& final(self).remaining() == old(self).remaining()
                    &&& final(self).entries() == old(self).entries()
                },
            },
    {
        if self.has_ended() {
            return None;
        }
        // consume then increment
        let at = self.from_smallest_bsi;
        self.from_smallest_bsi = index_of::<I>(slot_of(at) + 1);
        let ghost before = self.entries();
        let ghost rest = self.remaining();
        proof {
            assert(rest =~= old(self).remaining().skip(1));
            assert forall|v: V| #[trigger]
                before.update(at.as_nat() as int, (before[at.as_nat() as int].0, v)).subrange(
                    self.lo(),
                    self.hi(),
                ) =~= rest by {}
        }
        Some(self.get_entry_mut(at))
    }

    /// The number of entries that are left, as both bounds.
    pub fn size_hint(&self) -> (r: (usize, Option<usize>))
        requires
            self.wf(),
        ensures
            r == (self.remaining().len() as usize, Some(self.remaining().len() as usize)),
            self.remaining().len() <= CAP,
    {
        let l = slot_of(self.from_largest_bsi) - slot_of(self.from_smallest_bsi);
        (l, Some(l))
    }

    /// Yields the remaining entry with the greatest key, its value for
    /// writing. What is written shows in the cache at the place of the
    /// entry, and nowhere else.
    pub fn next_back(&mut self) -> (r: Option<(&K, &mut V)>)
        requires
            old(self).wf(),
        ensures
            final(self).wf(),
            *final(final(self).borrowed()) == *final(old(self).borrowed()),
            match r {
                Some(kv) => {
                    &&& old(self).remaining().len() > 0
                    &&& (*kv.0, *kv.1) == old(self).remaining().last()
                    &&& final(self).remaining() == old(self).remaining().drop_last()
                    &&& final(self).entries() == old(self).entries().update(
                        old(self).lo() + old(self).remaining().len() - 1,
                        (*kv.0, *final(kv.1)),
                    )
                    &&& final(self).lo() == old(self).lo()
                },
                None => {
                    &&& old(self).remaining().len() == 0
                    &&& final(self).remaining() == old(self).remaining()
                    &&& final(self).entries() == old(self).entries()
                },
            },
    {
        if self.has_ended() {
            return None;
        }
        // decrement then consume
        self.from_largest_bsi = index_of::<I>(slot_of(self.from_largest_bsi) - 1);
        let at = self.from_largest_bsi;
        let ghost before = self.entries();
        let ghost rest = self.remaining();
        proof {
            assert(rest =~= old(self).remaining().drop_last());
            assert forall|v: V| #[trigger]
                before.update(at.as_nat() as int, (before[at.as_nat() as int].0, v)).subrange(
                    self.lo(),
                    self.hi(),
                ) =~= rest by {}
        }
        Some(self.get_entry_mut(at))
    }
}

} // verus!
