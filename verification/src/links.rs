//! The recency list: a doubly-linked list over slot numbers that threads the
//! occupied slots from most to least recently used and then the vacant ones.

use vstd::prelude::*;

use crate::index::index_of;
use crate::index::slot_of;
use crate::index::SlotIndex;
use crate::model::promote;
use crate::ConstLru;

verus! {

impl<K: Ord, V, const CAP: usize, I: SlotIndex> ConstLru<K, V, CAP, I> {
    /// Successor link of slot `s`.
    pub(crate) fn next_slot(&self, s: usize) -> (r: usize)
        requires
            self.shape_ok(),
            s < CAP,
        ensures
            r == self.next_of(s as int),
            r <= CAP,
    {
        slot_of(self.nexts[s])
    }

    /// Predecessor link of slot `s`.
    pub(crate) fn prev_slot(&self, s: usize) -> (r: usize)
        requires
            self.shape_ok(),
            s < CAP,
        ensures
            r == self.prev_of(s as int),
            r <= CAP,
    {
        slot_of(self.prevs[s])
    }

    /// Slot of the most recently used entry, `CAP` if there is none.
    pub(crate) fn head_index(&self) -> (r: usize)
        requires
            self.shape_ok(),
        ensures
            r == self.head_slot(),
            r <= CAP,
    {
        slot_of(self.head)
    }

    /// Slot of the least recently used entry, or the first vacant slot of an
    /// empty cache.
    pub(crate) fn tail_index(&self) -> (r: usize)
        requires
            self.shape_ok(),
        ensures
            r == self.tail_slot(),
            r <= CAP,
    {
        slot_of(self.tail)
    }

    /// Number of entries.
    pub(crate) fn count_usize(&self) -> (r: usize)
        requires
            self.shape_ok(),
        ensures
            r == self.count(),
            r <= CAP,
    {
        slot_of(self.len)
    }

    /// Unlinks the node at `index` from the doubly-linked list, patching its
    /// previous and next nodes, as well as `head` and `tail` if required.
    ///
    /// The links stored for `index` itself are left as they were. `head` and
    /// `tail` are not modified if they name the same slot.
    pub(crate) fn unlink_node(&mut self, index: I)
        requires
            old(self).shape_ok(),
            index.as_nat() < CAP,
        ensures
            final(self).shape_ok(),
            forall|s: int|
                0 <= s < CAP ==> (#[trigger] final(self).nexts@[s]).as_nat() == (if s == old(self).prev_of(
                    index.as_nat() as int,
                ) {
                    old(self).next_of(index.as_nat() as int)
                } else {
                    old(self).next_of(s)
                }),
            forall|s: int|
                0 <= s < CAP ==> (#[trigger] final(self).prevs@[s]).as_nat() == (if s == old(self).next_of(
                    index.as_nat() as int,
                ) {
                    old(self).prev_of(index.as_nat() as int)
                } else {
                    old(self).prev_of(s)
                }),
            final(self).head_slot() == (if old(self).head_slot() == index.as_nat() && old(
                self,
            ).head_slot() != old(self).tail_slot() {
                old(self).next_of(index.as_nat() as int)
            } else {
                old(self).head_slot()
            }),
            final(self).tail_slot() == (if old(self).tail_slot() == index.as_nat() && old(
                self,
            ).head_slot() != old(self).tail_slot() {
                old(self).prev_of(index.as_nat() as int)
            } else {
                old(self).tail_slot()
            }),
            final(self).len == old(self).len,
            final(self).bs_index == old(self).bs_index,
            final(self).keys == old(self).keys,
            final(self).values == old(self).values,
            final(self).chain == old(self).chain,
            final(self).place == old(self).place,
            final(self).rank == old(self).rank,
    {
        let i = slot_of(index);
        let next = self.next_slot(i);
        let prev = self.prev_slot(i);

        // index.next.prev = index.prev
        if next != CAP {
            self.prevs[next] = index_of::<I>(prev);
        }
        // index.prev.next = index.next

        if prev != CAP {
            self.nexts[prev] = index_of::<I>(next);
        }
        let head = self.head_index();
        let tail = self.tail_index();
        let is_one_elem_list = head == tail;

        if head == i && !is_one_elem_list {
            self.head = index_of::<I>(next);
        }
        if tail == i && !is_one_elem_list {
            self.tail = index_of::<I>(prev);
        }
    }

    /// Moves the element at `index` to the most-recently-used position.
    pub(crate) fn move_to_head(&mut self, index: I)
        requires
            old(self).wf(),
            index.as_nat() < CAP,
            old(self).place@[index.as_nat() as int] < old(self).count(),
        ensures
            final(self).wf(),
            final(self)@ == promote(old(self)@, old(self).place@[index.as_nat() as int]),
            final(self).chain@ == promote(old(self).chain@, old(self).place@[index.as_nat() as int]),
            final(self).len == old(self).len,
            final(self).bs_index == old(self).bs_index,
            final(self).keys == old(self).keys,
            final(self).values == old(self).values,
            final(self).rank == old(self).rank,
            forall|s: int|
                0 <= s < CAP ==> (#[trigger] final(self).place@[s] < final(self).count()) == (old(
                    self,
                ).place@[s] < old(self).count()),
    {
        let i = slot_of(index);
        let head = self.head_index();
        let ghost p = self.place@[i as int];
        let ghost c = self.chain@;
        let ghost pl = self.place@;
        if head == i {
            proof {
                assert(p == 0);
                assert(promote(c, 0) =~= c);
                assert(promote(self@, 0) =~= self@);
            }
            return ;
        }
        self.unlink_node(index);

        // since self.head != index and index is valid, head must be valid
        let head = self.head_index();
        self.prevs[i] = index_of::<I>(CAP);
        self.nexts[i] = index_of::<I>(head);
        self.prevs[head] = index;
        self.head = index;
        proof {
            let ghost nc = Seq::new(
                CAP as nat,
                |j: int|
                    if j == 0 {
                        c[p]
                    } else if j <= p {
                        c[j - 1]
                    } else {
                        c[j]
                    },
            );
            let ghost np = Seq::new(
                CAP as nat,
                |s: int|
                    if s == i {
                        0int
                    } else if pl[s] < p {
                        pl[s] + 1
                    } else {
                        pl[s]
                    },
            );
            self.chain = Ghost(nc);
            self.place = Ghost(np);
            assert(nc =~= promote(c, p));
            assert(self@ =~= promote(old(self)@, p));
        }
    }
}

} // verus!
