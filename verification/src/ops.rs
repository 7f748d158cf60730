//! The operations on entries: lookup, insertion and removal.

use vstd::prelude::*;

use crate::index::index_of;
use crate::index::slot_of;
use crate::index::SlotIndex;
use crate::keys::key_lt;
use crate::keys::total_order;
use crate::model::index_of_key;
use crate::model::lookup;
use crate::model::put;
use crate::model::put_replaced;
use crate::model::take_out;
use crate::model::touch;
use crate::order::reseat;
use crate::order::reseat_pos;
use crate::order::reseat_src;
use crate::order::shift_left;
use crate::order::shift_right;
use crate::ConstLru;
use crate::InsertReplaced;

verus! {

impl<K: Ord, V, const CAP: usize, I: SlotIndex> ConstLru<K, V, CAP, I> {
    /// Whether `other` differs from `self` in the value cells at most.
    pub open(crate) spec fn same_but_values(&self, other: &Self) -> bool {
        &&& self.len == other.len
        &&& self.head == other.head
        &&& self.tail == other.tail
        &&& self.bs_index == other.bs_index
        &&& self.nexts == other.nexts
        &&& self.prevs == other.prevs
        &&& self.keys == other.keys
        &&& self.chain == other.chain
        &&& self.place == other.place
        &&& self.rank == other.rank
    }

    /// The value held in the occupied slot `index`.
    pub(crate) fn get_by_index(&self, index: I) -> (r: &V)
        requires
            self.wf(),
            index.as_nat() < CAP,
            self.place@[index.as_nat() as int] < self.count(),
        ensures
            *r == self.value_at(index.as_nat() as int),
    {
        let i = slot_of(index);
        match &self.values[i] {
            Some(v) => v,
            None => vstd::pervasive::unreached(),
        }
    }

    /// The value held in the occupied slot `index`, for writing.
    pub(crate) fn get_mut_by_index(&mut self, index: I) -> (r: &mut V)
        requires
            old(self).wf(),
            index.as_nat() < CAP,
            old(self).place@[index.as_nat() as int] < old(self).count(),
        ensures
            *r == old(self).value_at(index.as_nat() as int),
            final(self).wf(),
            old(self).same_but_values(final(self)),
            final(self).values@ == old(self).values@.update(
                index.as_nat() as int,
                Some(*final(r)),
            ),
            final(self)@ == old(self)@.update(
                old(self).place@[index.as_nat() as int],
                (old(self).key_at(index.as_nat() as int), *final(r)),
            ),
    {
        let i = slot_of(index);
        match &mut self.values[i] {
            Some(v) => v,
            None => vstd::pervasive::unreached(),
        }
    }

    /// Replaces the value of the occupied slot `index`, moves the entry to the
    /// most-recently-used position and returns the old value.
    pub(crate) fn insert_replace_value(&mut self, index: I, replacement: V) -> (old_v: V)
        requires
            old(self).wf(),
            index.as_nat() < CAP,
            old(self).place@[index.as_nat() as int] < old(self).count(),
        ensures
            final(self).wf(),
            old_v == old(self).value_at(index.as_nat() as int),
            final(self)@ == seq![(old(self).key_at(index.as_nat() as int), replacement)] + old(
                self,
            )@.remove(old(self).place@[index.as_nat() as int]),
            final(self).place@[index.as_nat() as int] == 0,
            final(self).count() == old(self).count(),
            final(self).value_at(index.as_nat() as int) == replacement,
            final(self).keys == old(self).keys,
            final(self).bs_index == old(self).bs_index,
            final(self).rank == old(self).rank,
    {
        let ghost p = self.place@[index.as_nat() as int];
        let cell = self.get_mut_by_index(index);
        let mut tmp = replacement;
        core::mem::swap(cell, &mut tmp);
        proof {
            assert(self@ == old(self)@.update(
                p,
                (old(self).key_at(index.as_nat() as int), replacement),
            ));
        }
        self.move_to_head(index);
        proof {
            assert(self@ =~= seq![(old(self).key_at(index.as_nat() as int), replacement)] + old(
                self,
            )@.remove(p));
        }
        tmp
    }

    /// Puts a new entry into the first vacant slot, lists the slot at
    /// position `insert_bs_i` of the order index and makes the entry the most
    /// recently used. Returns the slot.
    pub(crate) fn insert_alloc_new(&mut self, insert_bs_i: I, k: K, v: V) -> (free_index: I)
        requires
            old(self).wf(),
            total_order::<K>(),
            old(self).count() < CAP,
            old(self).missing_at(k, insert_bs_i.as_nat() as int),
        ensures
            final(self).wf(),
            final(self)@ == seq![(k, v)] + old(self)@,
            free_index.as_nat() < CAP,
            final(self).place@[free_index.as_nat() as int] == 0,
            final(self).count() == old(self).count() + 1,
            final(self).value_at(free_index.as_nat() as int) == v,
            final(self).key_at(free_index.as_nat() as int) == k,
            free_index.as_nat() == old(self).recency_chain()[old(self).count()],
    {
        let n = self.count_usize();
        let r = slot_of(insert_bs_i);
        let free_index = if n == 0 {
            self.head = self.tail;
            self.tail
        } else {
            let t = self.tail_index();
            self.nexts[t]
        };
        self.tail = free_index;
        let f = slot_of(free_index);
        assert(f == old(self).chain@[n as int]);
        self.keys[f] = Some(k);
        self.values[f] = Some(v);

        if r < n {
            // shift everything between [bs_i, len) right
            shift_right(&mut self.bs_index, r, n);
        }
        self.bs_index[r] = free_index;
        self.len = index_of::<I>(n + 1);
        proof {
            let ghost pl = old(self).place@;
            let ghost rk = old(self).rank@;
            self.rank = Ghost(
                Seq::new(
                    CAP as nat,
                    |s: int|
                        if s == f {
                            r as int
                        } else if pl[s] < n && rk[s] >= r {
                            rk[s] + 1
                        } else {
                            rk[s]
                        },
                ),
            );
            assert forall|j: int| 0 <= j < n + 1 implies #[trigger] self.rank_key(j) == (if j < r {
                old(self).rank_key(j)
            } else if j == r {
                k
            } else {
                old(self).rank_key(j - 1)
            }) by {
                if j < r {
                    assert(old(self).bs_index@[j].as_nat() < CAP);
                } else if j > r {
                    assert(old(self).bs_index@[j - 1].as_nat() < CAP);
                }
            }
            assert forall|a: int, b: int| 0 <= a < b < self.count() implies key_lt(
                self.rank_key(a),
                self.rank_key(b),
            ) by {
                let x = if a < r {
                    a
                } else {
                    a - 1
                };
                let y = if b < r {
                    b
                } else {
                    b - 1
                };
                assert(self.rank_key(a) == (if a == r {
                    k
                } else {
                    old(self).rank_key(x)
                }));
                assert(self.rank_key(b) == (if b == r {
                    k
                } else {
                    old(self).rank_key(y)
                }));
                if a != r && b != r {
                    assert(old(self).bs_index@[x].as_nat() < CAP);
                    assert(old(self).bs_index@[y].as_nat() < CAP);
                    assert(key_lt(old(self).rank_key(x), old(self).rank_key(y)));
                }
            }
            assert(self.order_ok());
            assert(self.wf());
            assert(self@ =~= old(self)@ + seq![(k, v)]);
        }
        self.move_to_head(self.tail);
        proof {
            assert(self@ =~= seq![(k, v)] + old(self)@);
        }
        free_index
    }

    /// Two occupied slots that hold the same key are the same slot.
    pub(crate) proof fn lemma_same_key_same_slot(&self, s: int, t: int)
        requires
            self.wf(),
            total_order::<K>(),
            0 <= s < CAP,
            0 <= t < CAP,
            self.place@[s] < self.count(),
            self.place@[t] < self.count(),
            self.key_at(s) == self.key_at(t),
        ensures
            s == t,
    {
        self.lemma_found(self.key_at(s), s);
        self.lemma_found(self.key_at(s), t);
    }

    /// After the eviction swap the order index is in order again: `post` is
    /// `pre` with the key `k` in slot `t` and the slot listed anew.
    pub(crate) proof fn lemma_reseat(pre: Self, post: Self, k: K, t: int, b: int, e: int)
        requires
            pre.wf(),
            total_order::<K>(),
            pre.missing_at(k, b),
            0 <= t < CAP,
            pre.place@[t] < pre.count(),
            pre.rank@[t] == e,
            post.len == pre.len,
            post.place == pre.place,
            post.keys@ == pre.keys@.update(t, Some(k)),
            post.bs_index@.len() == CAP,
            forall|j: int|
                0 <= j < CAP ==> #[trigger] post.bs_index@[j] == (if j == reseat_pos(b, e) {
                    pre.bs_index@[e]
                } else {
                    pre.bs_index@[reseat_src(b, e, j)]
                }),
            post.rank@ == Seq::new(
                CAP as nat,
                |s: int|
                    if s == t {
                        reseat_pos(b, e)
                    } else if b < e && b <= pre.rank@[s] < e {
                        pre.rank@[s] + 1
                    } else if b > e && e < pre.rank@[s] <= b - 1 {
                        pre.rank@[s] - 1
                    } else {
                        pre.rank@[s]
                    },
            ),
        ensures
            post.order_ok(),
            forall|r: int| 0 <= r < CAP ==> (#[trigger] post.bs_index@[r]).as_nat() <= CAP,
    {
        let n = pre.count();
        let pos = reseat_pos(b, e);
        assert(pre.bs_index@[e].as_nat() == t);
        assert forall|j: int| 0 <= j < n && j != pos implies #[trigger] post.rank_key(j)
            == pre.rank_key(reseat_src(b, e, j)) && post.order_slot(j) == pre.order_slot(
            reseat_src(b, e, j),
        ) && post.order_slot(j) != t by {
            let x = reseat_src(b, e, j);
            assert(pre.bs_index@[x].as_nat() < CAP);
            assert(post.bs_index@[j] == pre.bs_index@[x]);
        }
        assert(post.bs_index@[pos] == pre.bs_index@[e]);
        assert(post.rank_key(pos) == k);
        assert forall|x: int, y: int| 0 <= x < y < post.count() implies key_lt(
            post.rank_key(x),
            post.rank_key(y),
        ) by {
            let x0 = reseat_src(b, e, x);
            let y0 = reseat_src(b, e, y);
            if x != pos && y != pos {
                assert(post.rank_key(x) == pre.rank_key(x0));
                assert(post.rank_key(y) == pre.rank_key(y0));
                assert(pre.bs_index@[x0].as_nat() < CAP);
                assert(pre.bs_index@[y0].as_nat() < CAP);
                assert(key_lt(pre.rank_key(x0), pre.rank_key(y0)));
            } else if x == pos {
                assert(post.rank_key(y) == pre.rank_key(y0));
                assert(y0 >= b);
            } else {
                assert(post.rank_key(x) == pre.rank_key(x0));
                assert(x0 < b);
            }
        }
        assert forall|j: int| 0 <= j < post.count() implies {
            &&& (#[trigger] post.bs_index@[j]).as_nat() < CAP
            &&& post.place@[post.order_slot(j)] < post.count()
            &&& post.rank@[post.order_slot(j)] == j
        } by {
            if j != pos {
                let x = reseat_src(b, e, j);
                assert(pre.bs_index@[x].as_nat() < CAP);
                assert(post.order_slot(j) == pre.order_slot(x));
            }
        }
        assert forall|s: int| 0 <= s < CAP && post.place@[s] < post.count() implies {
            &&& 0 <= #[trigger] post.rank@[s] < post.count()
            &&& post.order_slot(post.rank@[s]) == s
        } by {
            if s != t {
                let q = pre.rank@[s];
                assert(pre.order_slot(q) == s);
                assert(q != e);
            }
        }
        assert forall|r: int| 0 <= r < CAP implies (#[trigger] post.bs_index@[r]).as_nat()
            <= CAP by {
            if r != pos {
                assert(pre.bs_index@[reseat_src(b, e, r)].as_nat() <= CAP);
            }
        }
    }

    /// Replaces the least recently used entry by a new one in its slot, moves
    /// the slot to position `insert_bs_i` of the order index, counted before
    /// the old entry left it, and makes the entry the most recently used.
    ///
    /// Returns the slot and the entry that was evicted.
    pub(crate) fn insert_evict_lru(&mut self, insert_bs_i: I, k: K, v: V) -> (r: (I, (K, V)))
        requires
            old(self).wf(),
            total_order::<K>(),
            CAP > 0,
            old(self).count() == CAP,
            old(self).missing_at(k, insert_bs_i.as_nat() as int),
        ensures
            final(self).wf(),
            final(self)@ == seq![(k, v)] + old(self)@.drop_last(),
            r.1 == old(self)@.last(),
            r.0.as_nat() < CAP,
            final(self).place@[r.0.as_nat() as int] == 0,
            final(self).count() == old(self).count(),
            final(self).value_at(r.0.as_nat() as int) == v,
            final(self).key_at(r.0.as_nat() as int) == k,
            r.0.as_nat() == old(self).tail_slot(),
    {
        // CAP > 0, tail must be valid
        let i = self.tail;
        let t = slot_of(i);
        let n = self.count_usize();
        assert(t == self.chain@[n - 1]);
        assert(self.place@[t as int] == n - 1);
        let evicted_bs_i = match self.get_index_of(self.key_ref(t)) {
            Ok((should_be_t, bs_i)) => {
                proof {
                    self.lemma_same_key_same_slot(should_be_t.as_nat() as int, t as int);
                }
                bs_i
            },
            Err(_) => {
                proof {
                    self.lemma_found(self.key_at(t as int), t as int);
                }
                vstd::pervasive::unreached()
            },
        };
        let evicted_k = match self.keys[t].take() {
            Some(x) => x,
            None => vstd::pervasive::unreached(),
        };
        let evicted_v = match self.values[t].take() {
            Some(x) => x,
            None => vstd::pervasive::unreached(),
        };
        self.keys[t] = Some(k);
        self.values[t] = Some(v);

        let b = slot_of(insert_bs_i);
        let e = slot_of(evicted_bs_i);
        proof {
            assert(old(self).bs_index@[e as int].as_nat() == t);
            I::lemma_injective(old(self).bs_index@[e as int], i);
        }
        reseat(&mut self.bs_index, b, e, i);
        proof {
            let ghost rk = old(self).rank@;
            self.rank = Ghost(
                Seq::new(
                    CAP as nat,
                    |s: int|
                        if s == t {
                            reseat_pos(b as int, e as int)
                        } else if b < e && b <= rk[s] < e {
                            rk[s] + 1
                        } else if b > e && e < rk[s] <= b - 1 {
                            rk[s] - 1
                        } else {
                            rk[s]
                        },
                ),
            );
            assert(self.keys@ =~= old(self).keys@.update(t as int, Some(k)));
            Self::lemma_reseat(*old(self), *self, k, t as int, b as int, e as int);
            assert(self.wf());
            assert(self@ =~= old(self)@.update(n - 1, (k, v)));
            assert(old(self)@.last() == (evicted_k, evicted_v));
        }
        self.move_to_head(self.tail);
        proof {
            assert(self@ =~= seq![(k, v)] + old(self)@.drop_last());
        }
        (i, (evicted_k, evicted_v))
    }

    /// Inserts a key-value pair into the map. The entry is moved to the most-recently-used slot
    ///
    /// If `CAP == 0`, `None` is returned.
    ///
    /// If the map did not have this key present and is not full, `None` is returned.
    ///
    /// If the map did have this key present, the value is updated, and the old value is returned in a [`InsertReplaced::OldValue`].
    ///
    /// If the map is full, the least-recently used key-value pair is evicted and returned in a [`InsertReplaced::LruEvicted`].
    pub fn insert(&mut self, k: K, v: V) -> (r: Option<InsertReplaced<K, V>>)
        requires
            old(self).wf(),
            total_order::<K>(),
        ensures
            final(self).wf(),
            final(self)@ == put(old(self)@, CAP as nat, k, v),
            r == put_replaced(old(self)@, CAP as nat, k, v),
    {
        if CAP == 0 {
            return None;
        }
        let insert_bs_i = match self.get_index_of(&k) {
            Ok((existing_index, _)) => {
                proof {
                    self.lemma_found(k, existing_index.as_nat() as int);
                }
                return Some(InsertReplaced::OldValue(self.insert_replace_value(existing_index, v)));
            },
            Err(i) => i,
        };
        if self.is_full() {
            let (_, (old_k, old_v)) = self.insert_evict_lru(insert_bs_i, k, v);
            Some(InsertReplaced::LruEvicted(old_k, old_v))
        } else {
            self.insert_alloc_new(insert_bs_i, k, v);
            None
        }
    }

    /// Takes the entry out of the occupied slot `index`, which stands at
    /// position `bs_i` of the order index, and makes the slot the first
    /// vacant one.
    pub(crate) fn remove_by_index(&mut self, index: I, bs_i: I) -> (r: (K, V))
        requires
            old(self).wf(),
            index.as_nat() < CAP,
            old(self).place@[index.as_nat() as int] < old(self).count(),
            old(self).rank@[index.as_nat() as int] == bs_i.as_nat(),
        ensures
            final(self).wf(),
            final(self)@ == old(self)@.remove(old(self).place@[index.as_nat() as int]),
            r == old(self).entry_at(index.as_nat() as int),
            final(self).count() == old(self).count() - 1,
            final(self).recency_chain()[final(self).count()] == index.as_nat(),
            final(self).keys@ == old(self).keys@.update(index.as_nat() as int, None),
            final(self).values@ == old(self).values@.update(index.as_nat() as int, None),
    {
        let i = slot_of(index);
        let n = self.count_usize();
        let ghost p = self.place@[i as int];
        let ghost c = self.chain@;
        let ghost pl = self.place@;
        let ghost rk = self.rank@;
        let rnk = slot_of(bs_i);

        let key = match self.keys[i].take() {
            Some(x) => x,
            None => vstd::pervasive::unreached(),
        };
        let val = match self.values[i].take() {
            Some(x) => x,
            None => vstd::pervasive::unreached(),
        };

        if n > 1 {
            // move to front of free list
            self.unlink_node(index);
            let t = self.tail_index();
            let first_free = self.next_slot(t);

            if first_free < CAP {
                self.prevs[first_free] = index;
            }
            self.nexts[i] = index_of::<I>(first_free);

            self.prevs[i] = self.tail;
            self.nexts[t] = index;
        } else {
            // the links already thread the slot as the first vacant one
            self.head = index_of::<I>(CAP);
        }

        // shift everything left to fill bs_i
        shift_left(&mut self.bs_index, rnk, n - 1);

        self.len = index_of::<I>(n - 1);
        proof {
            let ghost nc = Seq::new(
                CAP as nat,
                |j: int|
                    if j < p {
                        c[j]
                    } else if j < n - 1 {
                        c[j + 1]
                    } else if j == n - 1 {
                        i as int
                    } else {
                        c[j]
                    },
            );
            let ghost np = Seq::new(
                CAP as nat,
                |s: int|
                    if s == i {
                        n - 1
                    } else if p < pl[s] < n {
                        pl[s] - 1
                    } else {
                        pl[s]
                    },
            );
            let ghost nr = Seq::new(
                CAP as nat,
                |s: int|
                    if rk[s] > rnk {
                        rk[s] - 1
                    } else {
                        rk[s]
                    },
            );
            self.chain = Ghost(nc);
            self.place = Ghost(np);
            self.rank = Ghost(nr);
            assert forall|j: int| 0 <= j < n - 1 implies #[trigger] self.order_slot(j) == old(
                self,
            ).order_slot(if j < rnk { j } else { j + 1 }) by {}
            assert forall|j: int| 0 <= j < n - 1 implies #[trigger] self.rank_key(j) == old(
                self,
            ).rank_key(if j < rnk { j } else { j + 1 }) by {
                let x = if j < rnk {
                    j
                } else {
                    j + 1
                };
                assert(old(self).bs_index@[x].as_nat() < CAP);
                assert(self.order_slot(j) == old(self).order_slot(x));
            }
            assert forall|x: int, y: int| 0 <= x < y < self.count() implies key_lt(
                self.rank_key(x),
                self.rank_key(y),
            ) by {
                let x0 = if x < rnk {
                    x
                } else {
                    x + 1
                };
                let y0 = if y < rnk {
                    y
                } else {
                    y + 1
                };
                assert(self.rank_key(x) == old(self).rank_key(x0));
                assert(self.rank_key(y) == old(self).rank_key(y0));
                assert(old(self).bs_index@[x0].as_nat() < CAP);
                assert(old(self).bs_index@[y0].as_nat() < CAP);
                assert(key_lt(old(self).rank_key(x0), old(self).rank_key(y0)));
            }
            assert forall|j: int| 0 <= j < self.count() implies {
                &&& (#[trigger] self.bs_index@[j]).as_nat() < CAP
                &&& self.place@[self.order_slot(j)] < self.count()
                &&& self.rank@[self.order_slot(j)] == j
            } by {
                let x = if j < rnk {
                    j
                } else {
                    j + 1
                };
                assert(old(self).bs_index@[x].as_nat() < CAP);
                assert(self.order_slot(j) == old(self).order_slot(x));
            }
            assert(self.order_ok());
            assert(self.chain_ok());
            assert(self.shape_ok());
            assert(self.cells_ok());
            assert(self.links_ok());
            assert(self@ =~= old(self)@.remove(p));
        }
        (key, val)
    }

    /// Removes a key from the `ConstLru`, returning the value at the key if the key was previously in the `ConstLru`.
    pub fn remove(&mut self, k: &K) -> (r: Option<V>)
        requires
            old(self).wf(),
            total_order::<K>(),
        ensures
            final(self).wf(),
            final(self)@ == take_out(old(self)@, *k),
            r == lookup(old(self)@, *k),
    {
        match self.get_index_of(k) {
            Ok((index, bs_i)) => {
                proof {
                    self.lemma_found(*k, index.as_nat() as int);
                }
                Some(self.remove_by_index(index, bs_i).1)
            },
            Err(_) => None,
        }
    }

    /// Returns a reference to the value corresponding to the key and moves entry to most-recently-used slot.
    ///
    /// To not update to most-recently-used, use [`Self::get_untouched`]
    pub fn get(&mut self, k: &K) -> (r: Option<&V>)
        requires
            old(self).wf(),
            total_order::<K>(),
        ensures
            final(self).wf(),
            final(self)@ == touch(old(self)@, *k),
            match r {
                Some(v) => lookup(old(self)@, *k) == Some(*v),
                None => lookup(old(self)@, *k).is_none(),
            },
    {
        match self.get_index_of(k) {
            Ok((index, _)) => {
                proof {
                    self.lemma_found(*k, index.as_nat() as int);
                }
                self.move_to_head(index);
                Some(self.get_by_index(index))
            },
            Err(_) => None,
        }
    }

    /// Returns a mutable reference to the value corresponding to the key and moves entry to most-recently-used slot.
    ///
    /// To not update to most-recently-used, use [`Self::get_mut_untouched`]
    pub fn get_mut(&mut self, k: &K) -> (r: Option<&mut V>)
        requires
            old(self).wf(),
            total_order::<K>(),
        ensures
            final(self).wf(),
            match r {
                Some(v) => lookup(old(self)@, *k) == Some(*v) && final(self)@ == touch(
                    old(self)@,
                    *k,
                ).update(0, (*k, *final(v))),
                None => lookup(old(self)@, *k).is_none() && final(self)@ == old(self)@,
            },
    {
        match self.get_index_of(k) {
            Ok((index, _)) => {
                proof {
                    self.lemma_found(*k, index.as_nat() as int);
                }
                self.move_to_head(index);
                Some(self.get_mut_by_index(index))
            },
            Err(_) => None,
        }
    }

    /// Returns a reference to the value corresponding to the key without updating the entry to most-recently-used slot
    ///
    /// To update to most-recently-used, use [`Self::get`]
    pub fn get_untouched(&self, k: &K) -> (r: Option<&V>)
        requires
            self.wf(),
            total_order::<K>(),
        ensures
            match r {
                Some(v) => lookup(self@, *k) == Some(*v),
                None => lookup(self@, *k).is_none(),
            },
    {
        match self.get_index_of(k) {
            Ok((index, _)) => {
                proof {
                    self.lemma_found(*k, index.as_nat() as int);
                }
                Some(self.get_by_index(index))
            },
            Err(_) => None,
        }
    }

    /// Returns a mutable reference to the value corresponding to the key without updating the entry to most-recently-used slot
    ///
    /// To update to most-recently-used, use [`Self::get_mut`]
    pub fn get_mut_untouched(&mut self, k: &K) -> (r: Option<&mut V>)
        requires
            old(self).wf(),
            total_order::<K>(),
        ensures
            final(self).wf(),
            match r {
                Some(v) => lookup(old(self)@, *k) == Some(*v) && final(self)@ == old(self)@.update(
                    index_of_key(old(self)@, *k),
                    (*k, *final(v)),
                ),
                None => lookup(old(self)@, *k).is_none() && final(self)@ == old(self)@,
            },
    {
        match self.get_index_of(k) {
            Ok((index, _)) => {
                proof {
                    self.lemma_found(*k, index.as_nat() as int);
                }
                Some(self.get_mut_by_index(index))
            },
            Err(_) => None,
        }
    }
}

} // verus!
