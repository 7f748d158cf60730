//! Building a full cache from an array of entries.

use vstd::prelude::*;

use crate::errs::DuplicateKeysError;
use crate::index::index_of;
use crate::index::SlotIndex;
use crate::keys::compare;
use crate::keys::key_lt;
use crate::keys::lemma_total_order;
use crate::keys::total_order;
use crate::keys::KeyOrder;
use crate::model::distinct_keys;
use crate::model::repeated_key;
use crate::order::shift_right;
use crate::ConstLru;

verus! {

/// `Vec::from` on an array, of std: the vector holds the array's elements in
/// the array's order.
pub assume_specification<T, const N: usize>[ <Vec<T> as From<[T; N]>>::from ](a: [T; N]) -> (r:
    Vec<T>)
    ensures
        r@ == a@,
;

impl<K: Ord, V, const CAP: usize, I: SlotIndex> ConstLru<K, V, CAP, I> {
    /// The cache holds the entries `s` in its slots by position, all slots
    /// threaded in their own order, with nothing said of the order index.
    pub open(crate) spec fn laid_out(&self, s: Seq<(K, V)>) -> bool {
        &&& s.len() == CAP
        &&& self.shape_ok()
        &&& self.chain_ok()
        &&& self.links_ok()
        &&& self.cells_ok()
        &&& self.count() == CAP
        &&& self.chain@ == Seq::new(CAP as nat, |i: int| i)
        &&& self.place@ == Seq::new(CAP as nat, |i: int| i)
        &&& forall|j: int| 0 <= j < CAP ==> #[trigger] self.keys@[j] == Some(s[j].0)
        &&& forall|j: int| 0 <= j < CAP ==> #[trigger] self.values@[j] == Some(s[j].1)
    }

    /// The first `m` positions of the order index list the slots `0..m` once
    /// each, by non-descending key.
    pub open(crate) spec fn order_prefix_ok(&self, m: int) -> bool {
        &&& forall|a: int|
            0 <= a < m ==> (#[trigger] self.bs_index@[a]).as_nat() < m && self.rank@[self.order_slot(
                a,
            )] == a
        &&& forall|s: int|
            0 <= s < m ==> 0 <= #[trigger] self.rank@[s] < m && self.order_slot(self.rank@[s])
                == s
        &&& forall|a: int, b: int|
            #![trigger self.bs_index@[a], self.bs_index@[b]]
            0 <= a < b < m ==> !key_lt(self.rank_key(b), self.rank_key(a))
    }

    /// Whether `other` differs from `self` in the order index at most.
    pub open(crate) spec fn same_but_order(&self, other: &Self) -> bool {
        &&& self.len == other.len
        &&& self.head == other.head
        &&& self.tail == other.tail
        &&& self.nexts == other.nexts
        &&& self.prevs == other.prevs
        &&& self.keys == other.keys
        &&& self.values == other.values
        &&& self.chain == other.chain
        &&& self.place == other.place
    }

    /// Writes the pairs of `items` into the slots by position and marks the
    /// cache as full, the first slot being the most recently used.
    fn fill_cells(&mut self, items: Vec<(K, V)>)
        requires
            old(self).wf(),
            old(self).count() == 0,
            old(self).chain@ == Seq::new(CAP as nat, |i: int| i),
            items@.len() == CAP,
        ensures
            final(self).laid_out(items@),
            final(self).rank@.len() == CAP,
    {
        let mut items = items;
        let ghost all = items@;
        let mut i: usize = CAP;
        proof {
            assert forall|s: int| 0 <= s < CAP implies #[trigger] self.place@[s] == s by {
                assert(self.chain@[s] == s);
            }
            assert(self.place@ =~= Seq::new(CAP as nat, |i: int| i));
        }
        while i > 0
            invariant
                i <= CAP,
                items@ == all.take(i as int),
                all.len() == CAP,
                self.keys@.len() == CAP,
                self.values@.len() == CAP,
                forall|j: int| i <= j < CAP ==> #[trigger] self.keys@[j] == Some(all[j].0),
                forall|j: int| i <= j < CAP ==> #[trigger] self.values@[j] == Some(all[j].1),
                self.len == old(self).len,
                self.head == old(self).head,
                self.tail == old(self).tail,
                self.bs_index == old(self).bs_index,
                self.nexts == old(self).nexts,
                self.prevs == old(self).prevs,
                self.chain == old(self).chain,
                self.place@ == Seq::new(CAP as nat, |i: int| i),
                self.rank == old(self).rank,
            decreases i,
        {
            let (k, v) = match items.pop() {
                Some(kv) => kv,
                None => vstd::pervasive::unreached(),
            };
            i -= 1;
            self.keys[i] = Some(k);
            self.values[i] = Some(v);
            proof {
                assert(items@ =~= all.take(i as int));
            }
        }
        self.len = index_of::<I>(CAP);
        self.head = index_of::<I>(0);
        self.tail = if CAP > 0 {
            index_of::<I>(CAP - 1)
        } else {
            index_of::<I>(0)
        };
    }

    /// Lists the slots in the order index by non-descending key.
    fn sort_order(&mut self)
        requires
            old(self).shape_ok(),
            old(self).rank@.len() == CAP,
            forall|j: int| 0 <= j < CAP ==> (#[trigger] old(self).keys@[j]).is_some(),
            total_order::<K>(),
        ensures
            old(self).same_but_order(final(self)),
            final(self).shape_ok(),
            final(self).rank@.len() == CAP,
            final(self).order_prefix_ok(CAP as int),
    {
        let mut i: usize = 0;
        while i < CAP
            invariant
                i <= CAP,
                old(self).same_but_order(self),
                self.shape_ok(),
                self.rank@.len() == CAP,
                self.order_prefix_ok(i as int),
                forall|j: int| 0 <= j < CAP ==> (#[trigger] self.keys@[j]).is_some(),
                total_order::<K>(),
            decreases CAP - i,
        {
            // find the position of slot i among the slots before it
            let mut j: usize = i;
            let mut searching = true;
            while searching && j > 0
                invariant
                    j <= i < CAP,
                    self.shape_ok(),
                    self.order_prefix_ok(i as int),
                    forall|j: int| 0 <= j < CAP ==> (#[trigger] self.keys@[j]).is_some(),
                    total_order::<K>(),
                    forall|x: int|
                        j <= x < i ==> key_lt(self.key_at(i as int), #[trigger] self.rank_key(x)),
                    !searching ==> j > 0 && !key_lt(self.key_at(i as int), self.rank_key(j - 1)),
                decreases j + (if searching { 1int } else { 0int }),
            {
                let s = self.order_at(j - 1);
                assert(self.bs_index@[j - 1].as_nat() < i);
                let c = compare(self.key_ref(i), self.key_ref(s));
                match c {
                    KeyOrder::Less => {
                        j -= 1;
                    },
                    _ => {
                        searching = false;
                    },
                }
            }
            let ghost before = *self;
            proof {
                assert(j > 0 ==> !key_lt(self.key_at(i as int), self.rank_key(j - 1)));
            }
            shift_right(&mut self.bs_index, j, i);
            self.bs_index[j] = index_of::<I>(i);
            proof {
                let ghost rk = before.rank@;
                self.rank = Ghost(
                    Seq::new(
                        CAP as nat,
                        |s: int|
                            if s == i {
                                j as int
                            } else if s < i && rk[s] >= j {
                                rk[s] + 1
                            } else {
                                rk[s]
                            },
                    ),
                );
                Self::lemma_sorted_insert(before, *self, i as int, j as int);
            }
            i += 1;
        }
    }

    /// Listing slot `i` at position `j` of an order index that lists the
    /// slots before `i` in order keeps it in order, where the keys before
    /// `j` are not above that of slot `i` and those from `j` on are above it.
    proof fn lemma_sorted_insert(pre: Self, post: Self, i: int, j: int)
        requires
            total_order::<K>(),
            0 <= j <= i < CAP,
            pre.shape_ok(),
            pre.rank@.len() == CAP,
            pre.order_prefix_ok(i),
            pre.same_but_order(&post),
            forall|x: int| j <= x < i ==> key_lt(pre.key_at(i), #[trigger] pre.rank_key(x)),
            j > 0 ==> !key_lt(pre.key_at(i), pre.rank_key(j - 1)),
            post.bs_index@.len() == CAP,
            post.bs_index@[j].as_nat() == i,
            forall|r: int|
                0 <= r < CAP && r != j ==> #[trigger] post.bs_index@[r] == (if j < r <= i {
                    pre.bs_index@[r - 1]
                } else {
                    pre.bs_index@[r]
                }),
            post.rank@ == Seq::new(
                CAP as nat,
                |s: int|
                    if s == i {
                        j
                    } else if s < i && pre.rank@[s] >= j {
                        pre.rank@[s] + 1
                    } else {
                        pre.rank@[s]
                    },
            ),
        ensures
            post.shape_ok(),
            post.order_prefix_ok(i + 1),
    {
        assert forall|r: int| 0 <= r < CAP implies (#[trigger] post.bs_index@[r]).as_nat()
            <= CAP by {
            if r != j {
                if j < r <= i {
                    assert(pre.bs_index@[r - 1].as_nat() <= CAP);
                } else {
                    assert(pre.bs_index@[r].as_nat() <= CAP);
                }
            }
        }
        let src = |x: int|
            if x < j {
                x
            } else {
                x - 1
            };
        assert forall|x: int| 0 <= x < i + 1 && x != j implies #[trigger] post.order_slot(x)
            == pre.order_slot(src(x)) && post.rank_key(x) == pre.rank_key(src(x)) by {
            assert(post.bs_index@[x] == pre.bs_index@[src(x)]);
        }
        assert(post.rank_key(j) == pre.key_at(i));
        assert forall|a: int| 0 <= a < i + 1 implies (#[trigger] post.bs_index@[a]).as_nat() < i
            + 1 && post.rank@[post.order_slot(a)] == a by {
            if a != j {
                assert(pre.bs_index@[src(a)].as_nat() < i);
                assert(post.order_slot(a) == pre.order_slot(src(a)));
            }
        }
        assert forall|s: int| 0 <= s < i + 1 implies 0 <= #[trigger] post.rank@[s] < i + 1
            && post.order_slot(post.rank@[s]) == s by {
            if s != i {
                let q = pre.rank@[s];
                assert(pre.order_slot(q) == s);
            }
        }
        assert forall|a: int, b: int| 0 <= a < b < i + 1 implies !key_lt(
            post.rank_key(b),
            post.rank_key(a),
        ) by {
            let ki = pre.key_at(i);
            if a != j && b != j {
                assert(post.rank_key(a) == pre.rank_key(src(a)));
                assert(post.rank_key(b) == pre.rank_key(src(b)));
                assert(pre.bs_index@[src(a)].as_nat() < i);
                assert(pre.bs_index@[src(b)].as_nat() < i);
                assert(!key_lt(pre.rank_key(src(b)), pre.rank_key(src(a))));
            } else if a == j {
                assert(post.rank_key(b) == pre.rank_key(b - 1));
                assert(key_lt(ki, pre.rank_key(b - 1)));
                lemma_total_order(ki, pre.rank_key(b - 1), ki);
            } else {
                // b == j, a < j
                assert(post.rank_key(a) == pre.rank_key(a));
                let top = pre.rank_key(j - 1);
                if a < j - 1 {
                    assert(pre.bs_index@[a].as_nat() < i);
                    assert(pre.bs_index@[j - 1].as_nat() < i);
                    assert(!key_lt(top, pre.rank_key(a)));
                }
                lemma_total_order(ki, pre.rank_key(a), top);
                lemma_total_order(top, ki, pre.rank_key(a));
                lemma_total_order(pre.rank_key(a), top, ki);
            }
        }
    }

    /// The first position of the order index whose key is also the key of
    /// the next position, if there is one.
    fn first_repeat(&self) -> (r: Option<usize>)
        requires
            self.shape_ok(),
            self.rank@.len() == CAP,
            self.order_prefix_ok(CAP as int),
            forall|j: int| 0 <= j < CAP ==> (#[trigger] self.keys@[j]).is_some(),
            total_order::<K>(),
        ensures
            match r {
                Some(w) => w + 1 < CAP && self.rank_key(w as int) == self.rank_key(w + 1)
                    && forall|x: int|
                    0 <= x < w ==> #[trigger] self.rank_key(x) != self.rank_key(x + 1),
                None => forall|x: int|
                    0 <= x && x + 1 < CAP ==> #[trigger] self.rank_key(x) != self.rank_key(x + 1),
            },
    {
        if CAP > 1 {
            let mut w: usize = 0;
            while w + 1 < CAP
                invariant
                    1 < CAP,
                    w + 1 <= CAP,
                    self.shape_ok(),
                    self.order_prefix_ok(CAP as int),
                    forall|j: int| 0 <= j < CAP ==> (#[trigger] self.keys@[j]).is_some(),
                    total_order::<K>(),
                    forall|x: int|
                        0 <= x < w ==> #[trigger] self.rank_key(x) != self.rank_key(x + 1),
                decreases CAP - w,
            {
                let i1 = self.order_at(w);
                let i2 = self.order_at(w + 1);
                assert(self.bs_index@[w as int].as_nat() < CAP);
                assert(self.bs_index@[w + 1].as_nat() < CAP);
                let k1 = self.key_ref(i1);
                let k2 = self.key_ref(i2);
                match compare(k1, k2) {
                    KeyOrder::Equal => {
                        return Some(w);
                    },
                    _ => {},
                }
                w += 1;
            }
        }
        None
    }

    /// With the slots listed by non-descending key, a key that two entries
    /// share stands at two adjacent positions of the order index, the first
    /// of which is `lo` at least, where `lo` is a position before which no
    /// two adjacent keys are the same.
    proof fn lemma_repeat_adjacent(&self, s: Seq<(K, V)>, k: K, lo: int)
        requires
            self.laid_out(s),
            self.rank@.len() == CAP,
            self.order_prefix_ok(CAP as int),
            total_order::<K>(),
            repeated_key(s, k),
            0 <= lo,
            forall|x: int| 0 <= x < lo ==> #[trigger] self.rank_key(x) != self.rank_key(x + 1),
        ensures
            exists|x: int|
                lo <= x && x + 1 < CAP && #[trigger] self.rank_key(x) == k && self.rank_key(x + 1)
                    == k,
    {
        let (i, j) = choose|i: int, j: int|
            0 <= i < j < s.len() && (#[trigger] s[i]).0 == k && (#[trigger] s[j]).0 == k;
        assert(self.keys@[i] == Some(s[i].0));
        assert(self.keys@[j] == Some(s[j].0));
        let a0 = self.rank@[i];
        let b0 = self.rank@[j];
        assert(self.order_slot(a0) == i && self.order_slot(b0) == j);
        assert(a0 != b0);
        let a = if a0 < b0 {
            a0
        } else {
            b0
        };
        let b = if a0 < b0 {
            b0
        } else {
            a0
        };
        assert(self.rank_key(a) == k && self.rank_key(b) == k);
        // the keys between the two positions are all `k`
        assert(self.bs_index@[a].as_nat() < CAP);
        assert(self.bs_index@[a + 1].as_nat() < CAP);
        assert(self.bs_index@[b].as_nat() < CAP);
        let mid = self.rank_key(a + 1);
        if a + 1 < b {
            assert(!key_lt(mid, k));
            assert(!key_lt(k, mid));
            lemma_total_order(mid, k, k);
        }
        assert(mid == k);
        if a < lo {
            assert(self.rank_key(a) != self.rank_key(a + 1));
        }
    }

    /// Creates a full ConstLru cache from an `entries` array.
    ///
    /// Assumes `entries` is in MRU -> LRU order.
    ///
    /// Returns error if duplicate keys found: the error holds the least key
    /// that more than one entry has.
    pub fn try_from(entries: [(K, V); CAP]) -> (r: Result<Self, DuplicateKeysError<K>>)
        requires
            CAP <= I::max_nat(),
            I::max_nat() <= usize::MAX,
            total_order::<K>(),
        ensures
            r.is_ok() == distinct_keys(entries@),
            match r {
                Ok(c) => c.wf() && c@ == entries@,
                Err(e) => repeated_key(entries@, e.0) && forall|k: K|
                    repeated_key(entries@, k) ==> !key_lt(k, #[trigger] e.0),
            },
    {
        let mut res = Self::new();
        assert(res@.len() == res.count());
        let items: Vec<(K, V)> = Vec::from(entries);
        res.fill_cells(items);
        res.sort_order();
        let ghost s = entries@;
        match res.first_repeat() {
            Some(w) => {
                let index_1 = res.order_at(w);
                assert(res.bs_index@[w as int].as_nat() < CAP);
                assert(res.bs_index@[w + 1].as_nat() < CAP);
                let ghost i1 = res.order_slot(w as int);
                let ghost i2 = res.order_slot(w + 1);
                proof {
                    assert(res.rank@[i1] == w && res.rank@[i2] == w + 1);
                    assert(res.keys@[i1] == Some(s[i1].0));
                    assert(res.keys@[i2] == Some(s[i2].0));
                    let k = res.rank_key(w as int);
                    if i1 < i2 {
                        assert(s[i1].0 == k && s[i2].0 == k);
                    } else {
                        assert(s[i2].0 == k && s[i1].0 == k);
                    }
                    assert(repeated_key(s, k));
                    assert(!distinct_keys(s));
                    assert forall|k2: K| repeated_key(s, k2) implies !key_lt(k2, k) by {
                        res.lemma_repeat_adjacent(s, k2, w as int);
                        let x = choose|x: int|
                            w <= x && x + 1 < CAP && #[trigger] res.rank_key(x) == k2
                                && res.rank_key(x + 1) == k2;
                        if w < x {
                            assert(res.bs_index@[x].as_nat() < CAP);
                            assert(!key_lt(res.rank_key(x), res.rank_key(w as int)));
                        } else {
                            lemma_total_order(k, k, k);
                        }
                    }
                }
                let k_out = match res.keys[index_1].take() {
                    Some(k) => k,
                    None => vstd::pervasive::unreached(),
                };
                Err(DuplicateKeysError(k_out))
            },
            None => {
                proof {
                    assert forall|a: int, b: int| 0 <= a < b < res.count() implies key_lt(
                        res.rank_key(a),
                        res.rank_key(b),
                    ) by {
                        assert(res.bs_index@[a].as_nat() < CAP);
                        assert(res.bs_index@[a + 1].as_nat() < CAP);
                        assert(res.bs_index@[b].as_nat() < CAP);
                        let ka = res.rank_key(a);
                        let kn = res.rank_key(a + 1);
                        let kb = res.rank_key(b);
                        assert(ka != kn);
                        assert(!key_lt(kn, ka));
                        lemma_total_order(ka, kn, kb);
                        if a + 1 < b {
                            assert(!key_lt(kb, kn));
                            lemma_total_order(kb, kn, ka);
                            lemma_total_order(kn, kb, ka);
                            lemma_total_order(ka, kb, kn);
                        }
                    }
                    assert forall|r: int| 0 <= r < res.count() implies {
                        &&& (#[trigger] res.bs_index@[r]).as_nat() < CAP
                        &&& res.place@[res.order_slot(r)] < res.count()
                        &&& res.rank@[res.order_slot(r)] == r
                    } by {}
                    assert(res.order_ok());
                    assert(res.wf());
                    assert(res@ =~= s);
                    res.lemma_view_keys();
                }
                Ok(res)
            },
        }
    }
}

} // verus!
