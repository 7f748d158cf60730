//! The order index: the occupied slots listed by ascending key, searched by
//! bisection and kept sorted by shifting.

use vstd::prelude::*;

use crate::index::index_of;
use crate::index::slot_of;
use crate::index::SlotIndex;
use crate::keys::compare;
use crate::keys::key_lt;
use crate::keys::lemma_total_order;
use crate::keys::total_order;
use crate::keys::KeyOrder;
use crate::model::distinct_keys;
use crate::model::has_key;
use crate::model::index_of_key;
use crate::model::lemma_index_of_key;
use crate::ConstLru;

verus! {

/// Moves the elements at positions `from..to` of `v` one position up; the
/// element at `from` stays where it is as well.
pub(crate) fn shift_right<I: SlotIndex>(v: &mut Vec<I>, from: usize, to: usize)
    requires
        from <= to < old(v)@.len(),
    ensures
        final(v)@.len() == old(v)@.len(),
        forall|r: int|
            0 <= r < old(v)@.len() ==> #[trigger] final(v)@[r] == (if from < r <= to {
                old(v)@[r - 1]
            } else {
                old(v)@[r]
            }),
{
    let mut j = to;
    while j > from
        invariant
            from <= j <= to < v@.len(),
            v@.len() == old(v)@.len(),
            forall|r: int|
                0 <= r < v@.len() ==> #[trigger] v@[r] == (if j < r <= to {
                    old(v)@[r - 1]
                } else {
                    old(v)@[r]
                }),
        decreases j,
    {
        let x = v[j - 1];
        v[j] = x;
        j -= 1;
    }
}

/// Moves the elements at positions `from + 1..=to` of `v` one position down;
/// the element at `to` stays where it is as well.
pub(crate) fn shift_left<I: SlotIndex>(v: &mut Vec<I>, from: usize, to: usize)
    requires
        from <= to < old(v)@.len(),
    ensures
        final(v)@.len() == old(v)@.len(),
        forall|r: int|
            0 <= r < old(v)@.len() ==> #[trigger] final(v)@[r] == (if from <= r < to {
                old(v)@[r + 1]
            } else {
                old(v)@[r]
            }),
{
    let mut j = from;
    while j < to
        invariant
            from <= j <= to < v@.len(),
            v@.len() == old(v)@.len(),
            forall|r: int|
                0 <= r < v@.len() ==> #[trigger] v@[r] == (if from <= r < j {
                    old(v)@[r + 1]
                } else {
                    old(v)@[r]
                }),
        decreases to - j,
    {
        let x = v[j + 1];
        v[j] = x;
        j += 1;
    }
}

/// Position that a new key takes in the order index when it belongs at
/// position `b`, counted while the key that leaves still stands at `e`.
pub open spec fn reseat_pos(b: int, e: int) -> int {
    if b <= e {
        b
    } else {
        b - 1
    }
}

/// Position at which the key of position `j` stood before the key at `e` left
/// and a new key belonging at `b` came in.
pub open spec fn reseat_src(b: int, e: int, j: int) -> int {
    if b <= e {
        if b < j <= e {
            j - 1
        } else {
            j
        }
    } else {
        if e <= j < b - 1 {
            j + 1
        } else {
            j
        }
    }
}

/// The eviction swap: `slot`, listed at position `e` of `v`, is listed anew at
/// the position that belongs to `b`, and the elements between the two
/// positions move by one to make room.
pub(crate) fn reseat<I: SlotIndex>(v: &mut Vec<I>, b: usize, e: usize, slot: I)
    requires
        e < old(v)@.len(),
        b <= old(v)@.len(),
        old(v)@[e as int] == slot,
    ensures
        final(v)@.len() == old(v)@.len(),
        forall|j: int|
            0 <= j < old(v)@.len() ==> #[trigger] final(v)@[j] == (if j == reseat_pos(
                b as int,
                e as int,
            ) {
                slot
            } else {
                old(v)@[reseat_src(b as int, e as int, j)]
            }),
{
    if b == e {
        // nothing to be done, the slot already stands at its position
    } else if b < e {
        // shift everything between [b, e) right, then insert at b
        shift_right(v, b, e);
        v[b] = slot;
    } else {
        // shift everything between (e, b - 1] left, then insert at b - 1
        let b1 = b - 1;
        shift_left(v, e, b1);
        v[b1] = slot;
    }
}

impl<K: Ord, V, const CAP: usize, I: SlotIndex> ConstLru<K, V, CAP, I> {
    /// Whether `k` is absent and belongs at position `r` of the order index:
    /// the keys before `r` are less than `k` and the keys from `r` on greater.
    pub open(crate) spec fn missing_at(&self, k: K, r: int) -> bool {
        &&& 0 <= r <= self.count()
        &&& forall|q: int| 0 <= q < r ==> key_lt(#[trigger] self.rank_key(q), k)
        &&& forall|q: int| r <= q < self.count() ==> key_lt(k, #[trigger] self.rank_key(q))
    }

    /// Whether slot `index` holds the key `k` and stands at position `r` of
    /// the order index.
    pub open(crate) spec fn found_at(&self, k: K, index: int, r: int) -> bool {
        &&& 0 <= r < self.count()
        &&& 0 <= index < CAP
        &&& self.order_slot(r) == index
        &&& self.rank@[index] == r
        &&& self.place@[index] < self.count()
        &&& self.key_at(index) == k
    }

    /// The entries in ascending order of their keys.
    pub open(crate) spec fn by_key(&self) -> Seq<(K, V)> {
        Seq::new(self.count() as nat, |r: int| self.entry_at(self.order_slot(r)))
    }

    /// The key and, for writing, the value held in the occupied slot `s`.
    pub(crate) fn entry_mut(&mut self, s: usize) -> (r: (&K, &mut V))
        requires
            old(self).wf(),
            s < CAP,
            old(self).place@[s as int] < old(self).count(),
        ensures
            *r.0 == old(self).key_at(s as int),
            *r.1 == old(self).value_at(s as int),
            final(self).wf(),
            old(self).same_but_values(final(self)),
            final(self).values@ == old(self).values@.update(s as int, Some(*final(r.1))),
            final(self)@ == old(self)@.update(
                old(self).place@[s as int],
                (old(self).key_at(s as int), *final(r.1)),
            ),
            final(self).by_key() == old(self).by_key().update(
                old(self).rank@[s as int],
                (old(self).key_at(s as int), *final(r.1)),
            ),
    {
        let k = match &self.keys[s] {
            Some(k) => k,
            None => vstd::pervasive::unreached(),
        };
        let v = match &mut self.values[s] {
            Some(v) => v,
            None => vstd::pervasive::unreached(),
        };
        (k, v)
    }

    /// The key held in the occupied slot `s`.
    pub(crate) fn key_ref(&self, s: usize) -> (r: &K)
        requires
            s < self.keys@.len(),
            self.keys@[s as int].is_some(),
        ensures
            *r == self.key_at(s as int),
    {
        match &self.keys[s] {
            Some(k) => k,
            None => vstd::pervasive::unreached(),
        }
    }

    /// The value held in the occupied slot `s`.
    pub(crate) fn value_ref(&self, s: usize) -> (r: &V)
        requires
            s < self.values@.len(),
            self.values@[s as int].is_some(),
        ensures
            *r == self.value_at(s as int),
    {
        match &self.values[s] {
            Some(v) => v,
            None => vstd::pervasive::unreached(),
        }
    }

    /// The slot at position `r` of the order index.
    pub(crate) fn order_at(&self, r: usize) -> (s: usize)
        requires
            self.shape_ok(),
            r < CAP,
        ensures
            s == self.order_slot(r as int),
            s <= CAP,
    {
        slot_of(self.bs_index[r])
    }

    /// The keys of the entries are pairwise different, and an entry is found
    /// in the view at the place of its slot.
    pub(crate) proof fn lemma_view_keys(&self)
        requires
            self.wf(),
            total_order::<K>(),
        ensures
            distinct_keys(self@),
            self@.len() == self.count(),
            forall|i: int|
                0 <= i < self.count() ==> #[trigger] self@[i] == self.entry_at(self.chain@[i]),
    {
        assert forall|i: int, j: int| 0 <= i < j < self@.len() implies (#[trigger] self@[i]).0 != (
        #[trigger] self@[j]).0 by {
            let s = self.chain@[i];
            let t = self.chain@[j];
            let q = self.rank@[s];
            let r = self.rank@[t];
            assert(self.place@[s] == i && self.place@[t] == j);
            assert(self.order_slot(q) == s && self.order_slot(r) == t);
            assert(q != r);
            assert(self.bs_index@[q].as_nat() == s && self.bs_index@[r].as_nat() == t);
            lemma_total_order(self.key_at(s), self.key_at(t), self.key_at(s));
            if q < r {
                assert(key_lt(self.rank_key(q), self.rank_key(r)));
            } else {
                assert(key_lt(self.rank_key(r), self.rank_key(q)));
            }
        }
    }

    /// An occupied slot's key is a key of the view, at the place of the slot.
    pub(crate) proof fn lemma_found(&self, k: K, index: int)
        requires
            self.wf(),
            total_order::<K>(),
            0 <= index < CAP,
            self.place@[index] < self.count(),
            self.key_at(index) == k,
        ensures
            has_key(self@, k),
            index_of_key(self@, k) == self.place@[index],
            self@[self.place@[index]] == self.entry_at(index),
    {
        self.lemma_view_keys();
        lemma_index_of_key(self@, k, self.place@[index]);
    }

    /// A key that the order index misses is no key of the view.
    pub(crate) proof fn lemma_missing(&self, k: K, r: int)
        requires
            self.wf(),
            total_order::<K>(),
            self.missing_at(k, r),
        ensures
            !has_key(self@, k),
    {
        if has_key(self@, k) {
            let i = index_of_key(self@, k);
            let s = self.chain@[i];
            let q = self.rank@[s];
            assert(self.place@[s] == i);
            assert(self.order_slot(q) == s);
            assert(self.rank_key(q) == k);
            lemma_total_order(k, k, k);
            assert(false);
        }
    }

    /// Searches the order index for `k` by bisection.
    ///
    /// `Ok((slot, rank))` if the key is held in `slot`, which stands at
    /// position `rank` of the order index; `Err(rank)` if the key is absent,
    /// where `rank` is the position at which it would have to be inserted.
    pub(crate) fn get_index_of(&self, k: &K) -> (r: Result<(I, I), I>)
        requires
            self.wf(),
            total_order::<K>(),
        ensures
            match r {
                Ok((index, bs_i)) => self.found_at(
                    *k,
                    index.as_nat() as int,
                    bs_i.as_nat() as int,
                ),
                Err(bs_i) => self.missing_at(*k, bs_i.as_nat() as int),
            },
            r.is_ok() == has_key(self@, *k),
    {
        let n = self.count_usize();
        let mut lo: usize = 0;
        let mut hi: usize = n;
        while lo < hi
            invariant
                self.wf(),
                total_order::<K>(),
                n == self.count(),
                0 <= lo <= hi <= n,
                forall|q: int| 0 <= q < lo ==> key_lt(#[trigger] self.rank_key(q), *k),
                forall|q: int| hi <= q < n ==> key_lt(*k, #[trigger] self.rank_key(q)),
            decreases hi - lo,
        {
            let mid = lo + (hi - lo) / 2;
            let probe_index = self.bs_index[mid];
            let p = slot_of(probe_index);
            let probe = self.key_ref(p);
            assert(*probe == self.rank_key(mid as int));
            match compare(probe, k) {
                KeyOrder::Less => {
                    proof {
                        assert forall|q: int| 0 <= q < mid + 1 implies key_lt(
                            #[trigger] self.rank_key(q),
                            *k,
                        ) by {
                            if q < mid {
                                assert(self.bs_index@[q].as_nat() == self.order_slot(q));
                                assert(key_lt(self.rank_key(q), self.rank_key(mid as int)));
                                lemma_total_order(self.rank_key(q), *probe, *k);
                            }
                        }
                    }
                    lo = mid + 1;
                },
                KeyOrder::Equal => {
                    proof {
                        self.lemma_found(*k, p as int);
                    }
                    return Ok((probe_index, index_of::<I>(mid)));
                },
                KeyOrder::Greater => {
                    proof {
                        lemma_total_order(*probe, *k, *k);
                        assert forall|q: int| mid <= q < n implies key_lt(
                            *k,
                            #[trigger] self.rank_key(q),
                        ) by {
                            if q > mid {
                                assert(self.bs_index@[q].as_nat() == self.order_slot(q));
                                assert(key_lt(self.rank_key(mid as int), self.rank_key(q)));
                                lemma_total_order(*k, *probe, self.rank_key(q));
                            }
                        }
                    }
                    hi = mid;
                },
            }
        }
        proof {
            self.lemma_missing(*k, lo as int);
        }
        Err(index_of::<I>(lo))
    }
}

} // verus!
