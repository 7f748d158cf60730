//! A pair of cursors that walk the recency list towards each other.

use vstd::prelude::*;

use crate::index::index_of;
use crate::index::slot_of;
use crate::index::SlotIndex;
use crate::ConstLru;

verus! {

/// Two cursors on the recency list of a cache.
///
/// - `from_head` names the slot that a step from the front yields next:
///   consume, then advance.
/// - `from_tail` names the slot behind the one that a step from the back
///   yields next, `CAP` if there is none: retreat, then consume.
///
/// The walk has ended when both name the same slot.
#[derive(Clone, Copy, Debug, Default, PartialEq, Eq)]
pub struct DoubleEndedIterCursors<I, const CAP: usize> {
    /// from_head == from_tail means ended
    pub(crate) from_head: I,
    pub(crate) from_tail: I,
}

impl<I: SlotIndex, const CAP: usize> DoubleEndedIterCursors<I, CAP> {
    /// The number that the cursor from the front holds.
    pub open(crate) spec fn head_value(&self) -> nat {
        self.from_head.as_nat()
    }

    /// The number that the cursor from the back holds.
    pub open(crate) spec fn tail_value(&self) -> nat {
        self.from_tail.as_nat()
    }

    /// Position in the recency list of `const_lru` at which the cursor from
    /// the front stands.
    pub open(crate) spec fn front<K: Ord, V>(&self, const_lru: &ConstLru<K, V, CAP, I>) -> int {
        if self.from_head.as_nat() < CAP {
            const_lru.place@[self.from_head.as_nat() as int]
        } else {
            CAP as int
        }
    }

    /// Position in the recency list of `const_lru` before which the cursor
    /// from the back stands.
    pub open(crate) spec fn back<K: Ord, V>(&self, const_lru: &ConstLru<K, V, CAP, I>) -> int {
        if self.from_tail.as_nat() < CAP {
            const_lru.place@[self.from_tail.as_nat() as int]
        } else {
            CAP as int
        }
    }

    /// The cursors fit the cache: they hold slots or `CAP`, and they have
    /// met or the one from the front stands before the one from the back.
    pub open(crate) spec fn valid_for<K: Ord, V>(&self, const_lru: &ConstLru<K, V, CAP, I>) -> bool {
        &&& self.from_head.as_nat() <= CAP
        &&& self.from_tail.as_nat() <= CAP
        &&& self.front(const_lru) == self.back(const_lru) || 0 <= self.front(const_lru)
            < self.back(const_lru) <= CAP
    }

    /// The cursors have met or the stretch that they enclose lies within
    /// the entries of the cache.
    pub open(crate) spec fn within<K: Ord, V>(&self, const_lru: &ConstLru<K, V, CAP, I>) -> bool {
        self.front(const_lru) == self.back(const_lru) || self.back(const_lru)
            <= const_lru.count()
    }

    /// The entries between the cursors, from most to least recently used.
    pub open(crate) spec fn between<K: Ord, V>(&self, const_lru: &ConstLru<K, V, CAP, I>) -> Seq<
        (K, V),
    > {
        if self.front(const_lru) < self.back(const_lru) {
            const_lru@.subrange(self.front(const_lru), self.back(const_lru))
        } else {
            Seq::empty()
        }
    }

    /// Cursors that enclose all entries of `const_lru`.
    pub fn new<K: Ord, V>(const_lru: &ConstLru<K, V, CAP, I>) -> (r: Self)
        requires
            const_lru.wf(),
        ensures
            r.valid_for(const_lru),
            r.within(const_lru),
            r.between(const_lru) == const_lru@,
            const_lru.count() > 0 ==> r.front(const_lru) == 0 && r.back(const_lru)
                == const_lru.count(),
    {
        let (from_head, from_tail) = if const_lru.is_empty() {
            (index_of::<I>(0), index_of::<I>(0))
        } else if const_lru.is_full() {
            (const_lru.head, const_lru.cap())
        } else {
            let t = const_lru.tail_index();
            (const_lru.head, const_lru.nexts[t])
        };
        let r = Self { from_head, from_tail };
        proof {
            assert(r.between(const_lru) =~= const_lru@);
        }
        r
    }

    /// Moves the cursor from the front one entry on.
    pub fn advance_from_head<K: Ord, V>(&mut self, const_lru: &ConstLru<K, V, CAP, I>)
        requires
            const_lru.threaded(),
            old(self).valid_for(const_lru),
            !old(self).has_ended_spec(),
        ensures
            final(self).valid_for(const_lru),
            final(self).front(const_lru) == old(self).front(const_lru) + 1,
            final(self).back(const_lru) == old(self).back(const_lru),
            final(self).tail_value() == old(self).tail_value(),
            old(self).within(const_lru) ==> final(self).within(const_lru) && final(self).between(
                const_lru,
            ) == old(self).between(const_lru).skip(1),
    {
        proof {
            self.lemma_met(const_lru);
        }
        let i = self.get_from_head_idx();
        self.from_head = const_lru.nexts[i];
        proof {
            if old(self).within(const_lru) {
                assert(self.between(const_lru) =~= old(self).between(const_lru).skip(1));
            }
        }
    }

    /// Moves the cursor from the back one entry back.
    ///
    /// A cursor that stands behind the last slot goes to the slot that
    /// `tail` names, which must be the last of the recency list then.
    pub fn retreat_from_tail<K: Ord, V>(&mut self, const_lru: &ConstLru<K, V, CAP, I>)
        requires
            const_lru.threaded(),
            old(self).valid_for(const_lru),
            !old(self).has_ended_spec(),
            old(self).tail_value() == CAP ==> const_lru.tail_slot()
                == const_lru.recency_chain()[CAP - 1],
        ensures
            final(self).valid_for(const_lru),
            final(self).back(const_lru) == old(self).back(const_lru) - 1,
            final(self).front(const_lru) == old(self).front(const_lru),
            final(self).head_value() == old(self).head_value(),
            final(self).tail_value() < CAP,
            old(self).within(const_lru) ==> final(self).within(const_lru) && final(self).between(
                const_lru,
            ) == old(self).between(const_lru).drop_last(),
    {
        proof {
            self.lemma_met(const_lru);
        }
        self.from_tail = if self.from_tail.same(index_of::<I>(CAP)) {
            const_lru.tail
        } else {
            let i = self.get_from_tail_idx();
            const_lru.prevs[i]
        };
        proof {
            if old(self).within(const_lru) {
                assert(self.between(const_lru) =~= old(self).between(const_lru).drop_last());
            }
        }
    }

    /// The cursors hold the same number exactly when they stand at the same
    /// position.
    pub(crate) proof fn lemma_met<K: Ord, V>(&self, const_lru: &ConstLru<K, V, CAP, I>)
        requires
            const_lru.threaded(),
            self.valid_for(const_lru),
        ensures
            self.has_ended_spec() == (self.front(const_lru) == self.back(const_lru)),
            self.within(const_lru) ==> self.has_ended_spec() == (self.between(const_lru).len()
                == 0),
            !self.has_ended_spec() ==> self.head_value() < CAP,
    {
        if self.from_head.as_nat() == self.from_tail.as_nat() {
            I::lemma_injective(self.from_head, self.from_tail);
        }
    }

    /// Whether the cursors have met.
    pub open(crate) spec fn has_ended_spec(&self) -> bool {
        self.from_head.as_nat() == self.from_tail.as_nat()
    }

    /// The slot that the cursor from the front names.
    pub fn get_from_head_idx(&self) -> (r: usize)
        requires
            self.head_value() <= usize::MAX,
        ensures
            r == self.head_value(),
    {
        slot_of(self.from_head)
    }

    /// The slot that the cursor from the back names.
    pub fn get_from_tail_idx(&self) -> (r: usize)
        requires
            self.tail_value() <= usize::MAX,
        ensures
            r == self.tail_value(),
    {
        slot_of(self.from_tail)
    }

    /// Whether the cursors have met, so that nothing is left between them.
    pub fn has_ended(&self) -> (r: bool)
        ensures
            r == self.has_ended_spec(),
    {
        self.from_head.same(self.from_tail)
    }

    /// What the cursor from the front holds.
    pub fn get_from_head(&self) -> (r: I)
        ensures
            r.as_nat() == self.head_value(),
    {
        self.from_head
    }

    /// What the cursor from the back holds.
    pub fn get_from_tail(&self) -> (r: I)
        ensures
            r.as_nat() == self.tail_value(),
    {
        self.from_tail
    }
}

} // verus!
