//! Traversal by key over shared references.

use vstd::prelude::*;

use crate::index::index_of;
use crate::index::slot_of;
use crate::index::SlotIndex;
use crate::ConstLru;

verus! {

/// Iterates through the keys and values of the `ConstLru` in the keys' sorted order
///
/// Does not change the LRU order of the elements.
pub struct IterKeyOrder<'a, K, V, const CAP: usize, I: SlotIndex> {
    /// from_smallest_bsi == from_largest_bsi means ended
    pub(crate) from_smallest_bsi: I,
    pub(crate) from_largest_bsi: I,
    pub(crate) const_lru: &'a ConstLru<K, V, CAP, I>,
}

impl<'a, K: Ord, V, const CAP: usize, I: SlotIndex> IterKeyOrder<'a, K, V, CAP, I> {
    /// Position in the order index of the next entry from the front.
    pub open(crate) spec fn lo(&self) -> int {
        self.from_smallest_bsi.as_nat() as int
    }

    /// Position in the order index behind the next entry from the back.
    pub open(crate) spec fn hi(&self) -> int {
        self.from_largest_bsi.as_nat() as int
    }

    /// The iterator walks a well-formed cache and its positions lie in it.
    pub open(crate) spec fn wf(&self) -> bool {
        &&& self.const_lru.wf()
        &&& 0 <= self.lo() <= self.hi() <= self.const_lru.count()
    }

    /// The entries not yet yielded, in ascending order of their keys.
    pub open(crate) spec fn remaining(&self) -> Seq<(K, V)> {
        self.const_lru.by_key().subrange(self.lo(), self.hi())
    }

    /// An iterator over all entries of `const_lru`.
    pub fn new(const_lru: &'a ConstLru<K, V, CAP, I>) -> (r: Self)
        requires
            const_lru.wf(),
        ensures
            r.wf(),
            r.remaining() == const_lru.by_key(),
    {
        let r = Self {
            from_smallest_bsi: index_of::<I>(0),
            from_largest_bsi: const_lru.len(),
            const_lru,
        };
        proof {
            assert(r.remaining() =~= const_lru.by_key());
        }
        r
    }

    /// The slot at position `bs_i` of the order index.
    fn get_index(&self, bs_i: I) -> (r: I)
        requires
            self.const_lru.wf(),
            bs_i.as_nat() < self.const_lru.count(),
        ensures
            r.as_nat() == self.const_lru.order_slot(bs_i.as_nat() as int),
            r.as_nat() < CAP,
            self.const_lru.place@[r.as_nat() as int] < self.const_lru.count(),
    {
        self.const_lru.bs_index[slot_of(bs_i)]
    }

    /// The entry at position `bs_i` of the order index.
    fn get_entry(&self, bs_i: I) -> (r: (&'a K, &'a V))
        requires
            self.const_lru.wf(),
            bs_i.as_nat() < self.const_lru.count(),
        ensures
            (*r.0, *r.1) == self.const_lru.by_key()[bs_i.as_nat() as int],
    {
        let i = slot_of(self.get_index(bs_i));
        let c: &'a ConstLru<K, V, CAP, I> = self.const_lru;
        (c.key_ref(i), c.value_ref(i))
    }

    /// Whether all entries have been yielded.
    fn has_ended(&self) -> (r: bool)
        ensures
            r == (self.lo() == self.hi()),
    {
        self.from_smallest_bsi.same(self.from_largest_bsi)
    }

    /// Yields the remaining entry with the least key.
    pub fn next(&mut self) -> (r: Option<(&'a K, &'a V)>)
        requires
            old(self).wf(),
        ensures
            final(self).wf(),
            match r {
                Some(kv) => old(self).remaining().len() > 0 && (*kv.0, *kv.1) == old(
                    self,
                ).remaining().first() && final(self).remaining() == old(self).remaining().skip(1),
                None => old(self).remaining().len() == 0 && final(self).remaining() == old(
                    self,
                ).remaining(),
            },
    {
        if self.has_ended() {
            return None;
        }
        // consume then increment
        let res = self.get_entry(self.from_smallest_bsi);
        self.from_smallest_bsi = index_of::<I>(slot_of(self.from_smallest_bsi) + 1);
        proof {
            assert(self.remaining() =~= old(self).remaining().skip(1));
        }
        Some(res)
    }

    /// The number of entries that are left, as both bounds.
    pub fn size_hint(&self) -> (r: (usize, Option<usize>))
        requires
            self.wf(),
        ensures
            r == (self.remaining().len() as usize, Some(self.remaining().len() as usize)),
            self.remaining().len() <= CAP,
    {
        let l = slot_of(self.from_largest_bsi) - slot_of(self.from_smallest_bsi);
        (l, Some(l))
    }

    /// Yields the remaining entry with the greatest key.
    pub fn next_back(&mut self) -> (r: Option<(&'a K, &'a V)>)
        requires
            old(self).wf(),
        ensures
            final(self).wf(),
            match r {
                Some(kv) => old(self).remaining().len() > 0 && (*kv.0, *kv.1) == old(
                    self,
                ).remaining().last() && final(self).remaining() == old(self).remaining().drop_last(),
                None => old(self).remaining().len() == 0 && final(self).remaining() == old(
                    self,
                ).remaining(),
            },
    {
        if self.has_ended() {
            return None;
        }
        // decrement then consume
        self.from_largest_bsi = index_of::<I>(slot_of(self.from_largest_bsi) - 1);
        let res = self.get_entry(self.from_largest_bsi);
        proof {
            assert(self.remaining() =~= old(self).remaining().drop_last());
        }
        Some(res)
    }
}

} // verus!
