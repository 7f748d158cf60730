//! What holds of every well-formed cache: how the recency list and the
//! order index describe the entries.

use vstd::prelude::*;

use crate::index::SlotIndex;
use crate::iters::iter::Iter;
use crate::keys::key_lt;
use crate::keys::total_order;
use crate::model::distinct_keys;
use crate::model::has_key;
use crate::model::lookup;
use crate::ConstLru;

verus! {

impl<K: Ord, V, const CAP: usize, I: SlotIndex> ConstLru<K, V, CAP, I> {
    /// A cache never holds more entries than its capacity, and no key
    /// twice.
    pub proof fn lemma_len_bounded(&self)
        requires
            self.wf(),
            total_order::<K>(),
        ensures
            0 <= self@.len() <= CAP,
            distinct_keys(self@),
    {
        self.lemma_view_keys();
    }

    /// The recency list threads every slot exactly once: first the occupied
    /// slots from most to least recently used, which hold the entries of the
    /// view in its order, then the vacant slots.
    ///
    /// Walking the successor links from `head` visits the slots in that
    /// order and ends with `CAP`; walking the predecessor links visits them
    /// in reverse and ends with `CAP`; `tail` names the last occupied slot.
    /// In an empty cache `head` is `CAP` and `tail` names the first vacant
    /// slot.
    pub proof fn lemma_recency_list(&self)
        requires
            self.wf(),
        ensures
            self.recency_chain().len() == CAP,
            forall|i: int| 0 <= i < CAP ==> 0 <= #[trigger] self.recency_chain()[i] < CAP,
            forall|i: int, j: int|
                0 <= i < j < CAP ==> #[trigger] self.recency_chain()[i]
                    != #[trigger] self.recency_chain()[j],
            forall|i: int|
                0 <= i < CAP ==> self.occupied(#[trigger] self.recency_chain()[i]) == (i
                    < self@.len()),
            forall|i: int|
                0 <= i < self@.len() ==> #[trigger] self@[i] == self.entry_at(
                    self.recency_chain()[i],
                ),
            forall|i: int|
                0 <= i < CAP ==> self.next_of(#[trigger] self.recency_chain()[i]) == (if i + 1
                    < CAP {
                    self.recency_chain()[i + 1]
                } else {
                    CAP as int
                }),
            forall|i: int|
                0 <= i < CAP ==> self.prev_of(#[trigger] self.recency_chain()[i]) == (if i > 0 {
                    self.recency_chain()[i - 1]
                } else {
                    CAP as int
                }),
            self@.len() > 0 ==> self.head_slot() == self.recency_chain()[0] && self.tail_slot()
                == self.recency_chain()[self@.len() - 1],
            self@.len() == 0 ==> self.head_slot() == CAP && (CAP > 0 ==> self.tail_slot()
                == self.recency_chain()[0]),
    {
        let c = self.recency_chain();
        assert forall|i: int, j: int| 0 <= i < j < CAP implies #[trigger] c[i] != #[trigger] c[j] by {
            assert(self.place@[c[i]] == i);
            assert(self.place@[c[j]] == j);
        }
        assert forall|i: int| 0 <= i < CAP implies self.occupied(#[trigger] c[i]) == (i
            < self@.len()) by {
            assert(self.place@[c[i]] == i);
            assert(self.keys@[c[i]].is_some() == (self.place@[c[i]] < self.count()));
        }
        assert forall|i: int| 0 <= i < CAP implies self.next_of(#[trigger] c[i]) == (if i + 1
            < CAP {
            c[i + 1]
        } else {
            CAP as int
        }) by {
            assert(self.place@[c[i]] == i);
            assert(self.nexts@[c[i]].as_nat() == self.after(i));
        }
        assert forall|i: int| 0 <= i < CAP implies self.prev_of(#[trigger] c[i]) == (if i > 0 {
            c[i - 1]
        } else {
            CAP as int
        }) by {
            assert(self.place@[c[i]] == i);
            assert(self.prevs@[c[i]].as_nat() == self.before(i));
        }
    }

    /// The order index lists every occupied slot exactly once, by strictly
    /// ascending key: its first `len` positions hold occupied slots, the
    /// keys of which ascend, and every occupied slot stands at one of them.
    /// `by_key` reads the entries off in that order.
    pub proof fn lemma_order_index(&self)
        requires
            self.wf(),
        ensures
            self.by_key().len() == self@.len(),
            forall|r: int|
                0 <= r < self@.len() ==> 0 <= #[trigger] self.order_slot(r) < CAP && self.occupied(
                    self.order_slot(r),
                ) && self.by_key()[r] == self.entry_at(self.order_slot(r)),
            forall|q: int, r: int|
                0 <= q < r < self@.len() ==> key_lt(
                    self.key_at(#[trigger] self.order_slot(q)),
                    self.key_at(#[trigger] self.order_slot(r)),
                ),
            forall|s: int|
                0 <= s < CAP && #[trigger] self.occupied(s) ==> exists|r: int|
                    0 <= r < self@.len() && #[trigger] self.order_slot(r) == s,
    {
        assert forall|r: int| 0 <= r < self@.len() implies 0 <= #[trigger] self.order_slot(r)
            < CAP && self.occupied(self.order_slot(r)) && self.by_key()[r] == self.entry_at(
            self.order_slot(r),
        ) by {
            assert(self.bs_index@[r].as_nat() < CAP);
            let s = self.order_slot(r);
            assert(self.keys@[s].is_some() == (self.place@[s] < self.count()));
        }
        assert forall|q: int, r: int| 0 <= q < r < self@.len() implies key_lt(
            self.key_at(#[trigger] self.order_slot(q)),
            self.key_at(#[trigger] self.order_slot(r)),
        ) by {
            assert(self.bs_index@[q].as_nat() < CAP);
            assert(self.bs_index@[r].as_nat() < CAP);
            assert(key_lt(self.rank_key(q), self.rank_key(r)));
        }
        assert forall|s: int| 0 <= s < CAP && #[trigger] self.occupied(s) implies exists|r: int|
            0 <= r < self@.len() && #[trigger] self.order_slot(r) == s by {
            assert(self.keys@[s].is_some() == (self.place@[s] < self.count()));
            let r = self.rank@[s];
            assert(self.order_slot(r) == s);
        }
    }

    /// The entries by key are the entries by recency in another order: the
    /// keys ascend strictly, and each is a key of the cache with its value.
    pub proof fn lemma_by_key(&self)
        requires
            self.wf(),
            total_order::<K>(),
        ensures
            self.by_key().len() == self@.len(),
            forall|q: int, r: int|
                0 <= q < r < self.by_key().len() ==> key_lt(
                    (#[trigger] self.by_key()[q]).0,
                    (#[trigger] self.by_key()[r]).0,
                ),
            forall|r: int|
                0 <= r < self.by_key().len() ==> has_key(self@, (#[trigger] self.by_key()[r]).0)
                    && lookup(self@, self.by_key()[r].0) == Some(self.by_key()[r].1),
    {
        assert forall|q: int, r: int| 0 <= q < r < self.by_key().len() implies key_lt(
            (#[trigger] self.by_key()[q]).0,
            (#[trigger] self.by_key()[r]).0,
        ) by {
            assert(self.bs_index@[q].as_nat() < CAP);
            assert(self.bs_index@[r].as_nat() < CAP);
            assert(key_lt(self.rank_key(q), self.rank_key(r)));
        }
        assert forall|r: int| 0 <= r < self.by_key().len() implies has_key(
            self@,
            (#[trigger] self.by_key()[r]).0,
        ) && lookup(self@, self.by_key()[r].0) == Some(self.by_key()[r].1) by {
            assert(self.bs_index@[r].as_nat() < CAP);
            let s = self.order_slot(r);
            self.lemma_found(self.key_at(s), s);
        }
    }

    /// A cache built from an array of pairs yields them again, in the order
    /// of the array: the view of such a cache is the array, and an iterator
    /// by recency that has yielded nothing yet has the view left, so it
    /// yields the first pair of the array first and the last pair last.
    pub proof fn lemma_round_trip(&self, entries: Seq<(K, V)>, iter: &Iter<'_, K, V, CAP, I>)
        requires
            self.wf(),
            self@ == entries,
            iter.wf(),
            iter.remaining() == self@,
        ensures
            iter.remaining() == entries,
            entries.len() <= CAP,
            entries.len() > 0 ==> iter.remaining().first() == entries[0]
                && iter.remaining().last() == entries[entries.len() - 1],
    {
    }
}

} // verus!
