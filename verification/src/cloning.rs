//! Copies of a cache.

use vstd::prelude::*;

use crate::index::SlotIndex;
use crate::ConstLru;

verus! {

/// Whether a clone of a key is always the key itself.
pub open spec fn keys_clone_exactly<K: Clone>() -> bool {
    forall|a: K, b: K| #[trigger] cloned(a, b) ==> a == b
}

/// A copy of the indices of `v`.
fn copy_indices<I: SlotIndex>(v: &Vec<I>) -> (r: Vec<I>)
    ensures
        r@ == v@,
{
    let n = v.len();
    let mut out: Vec<I> = Vec::with_capacity(n);
    let mut i: usize = 0;
    while i < n
        invariant
            i <= n,
            n == v@.len(),
            out@ == v@.take(i as int),
        decreases n - i,
    {
        let x = v[i];
        out.push(x);
        proof {
            assert(out@ =~= v@.take(i + 1));
        }
        i += 1;
    }
    proof {
        assert(v@.take(n as int) =~= v@);
    }
    out
}

/// Clones of the cells of `v`: an empty cell for an empty one, a cell with a
/// clone of its content for a full one.
fn clone_cells<T: Clone>(v: &Vec<Option<T>>) -> (r: Vec<Option<T>>)
    ensures
        r@.len() == v@.len(),
        forall|s: int|
            0 <= s < v@.len() ==> (#[trigger] r@[s]).is_some() == v@[s].is_some() && (
            v@[s].is_some() ==> cloned(v@[s].unwrap(), r@[s].unwrap())),
{
    let n = v.len();
    let mut out: Vec<Option<T>> = Vec::with_capacity(n);
    let mut i: usize = 0;
    while i < n
        invariant
            i <= n,
            n == v@.len(),
            out@.len() == i,
            forall|s: int|
                0 <= s < i ==> (#[trigger] out@[s]).is_some() == v@[s].is_some() && (
                v@[s].is_some() ==> cloned(v@[s].unwrap(), out@[s].unwrap())),
        decreases n - i,
    {
        let cell = match &v[i] {
            Some(x) => Some(x.clone()),
            None => None,
        };
        out.push(cell);
        i += 1;
    }
    out
}

impl<K: Ord + Clone, V: Clone, const CAP: usize, I: SlotIndex> ConstLru<K, V, CAP, I> {
    /// Whether `other` is a copy of `self`: it holds the same keys in the same
    /// order of recency, each with a clone of its value.
    pub open spec fn copied_to(&self, other: &Self) -> bool {
        &&& other.wf()
        &&& other@.len() == self@.len()
        &&& forall|i: int|
            0 <= i < self@.len() ==> (#[trigger] other@[i]).0 == self@[i].0 && cloned(
                self@[i].1,
                other@[i].1,
            )
    }

    /// Makes `dst` a copy of `self`, whatever `dst` held before. Nothing is
    /// asked of `self`, and the copy is well formed if `self` is.
    fn copy_into(&self, dst: &mut Self)
        ensures
            self.wf() && keys_clone_exactly::<K>() ==> self.copied_to(final(dst)),
    {
        dst.len = self.len;
        dst.head = self.head;
        dst.tail = self.tail;
        dst.nexts = copy_indices(&self.nexts);
        dst.prevs = copy_indices(&self.prevs);
        dst.bs_index = copy_indices(&self.bs_index);
        dst.keys = clone_cells(&self.keys);
        dst.values = clone_cells(&self.values);
        proof {
            dst.chain = self.chain;
            dst.place = self.place;
            dst.rank = self.rank;
            if self.wf() && keys_clone_exactly::<K>() {
                assert forall|s: int| 0 <= s < CAP && self.keys@[s].is_some() implies (
                #[trigger] dst.keys@[s]) == self.keys@[s] by {
                    assert(cloned(self.keys@[s].unwrap(), dst.keys@[s].unwrap()));
                }
                assert forall|r: int| 0 <= r < dst.count() implies #[trigger] dst.rank_key(r)
                    == self.rank_key(r) by {
                    assert(self.bs_index@[r].as_nat() < CAP);
                    let s = self.order_slot(r);
                    assert(self.place@[s] < self.count());
                    assert(self.keys@[s].is_some());
                    assert(dst.keys@[s] == self.keys@[s]);
                }
                assert forall|q: int, r: int| 0 <= q < r < dst.count() implies crate::keys::key_lt(
                    dst.rank_key(q),
                    dst.rank_key(r),
                ) by {
                    assert(dst.rank_key(q) == self.rank_key(q));
                    assert(dst.rank_key(r) == self.rank_key(r));
                    assert(self.bs_index@[q].as_nat() < CAP);
                    assert(self.bs_index@[r].as_nat() < CAP);
                }
                assert(dst.order_ok());
                assert(dst.cells_ok());
                assert(dst.wf());
                assert forall|i: int| 0 <= i < self@.len() implies (#[trigger] dst@[i]).0
                    == self@[i].0 && cloned(self@[i].1, dst@[i].1) by {
                    let s = self.chain@[i];
                    assert(self.place@[s] == i);
                    assert(self.keys@[s].is_some());
                    assert(self.values@[s].is_some());
                    assert(dst.keys@[s] == self.keys@[s]);
                    assert(dst.values@[s].is_some());
                }
            }
        }
    }

    /// Clones the ConstLru to `dst`, whatever `dst` held before.
    pub fn clone_to_alloc(&self, dst: &mut Self)
        requires
            self.wf(),
            keys_clone_exactly::<K>(),
        ensures
            self.copied_to(final(dst)),
    {
        self.copy_into(dst);
    }
}

impl<K: Ord + Clone, V: Clone, const CAP: usize, I: SlotIndex> Clone for ConstLru<K, V, CAP, I> {
    /// A copy of a well-formed cache is well formed and holds the same keys
    /// in the same order of recency, each with a clone of its value, where a
    /// clone of a key is always the key itself.
    fn clone(&self) -> (res: Self)
        ensures
            self.wf() && keys_clone_exactly::<K>() ==> self.copied_to(&res),
    {
        let mut res = Self::hollow();
        self.copy_into(&mut res);
        res
    }
}

} // verus!
