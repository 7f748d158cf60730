//! A handle on the place of a key that is absent.

use vstd::prelude::*;

use crate::index::SlotIndex;
use crate::model::has_key;
use crate::model::put;
use crate::ConstLru;

verus! {

/// A view into an vacant entry in a ConstLru. It is part of the Entry enum.
pub struct VacantEntry<'a, K, V, const CAP: usize, I: SlotIndex> {
    pub(crate) const_lru: &'a mut ConstLru<K, V, CAP, I>,
    pub(crate) key: K,
    pub(crate) insert_bs_i: I,
}

impl<'a, K: Ord, V, const CAP: usize, I: SlotIndex> VacantEntry<'a, K, V, CAP, I> {
    /// The cache is well formed, has room for one entry at least, and the
    /// handle names the position in the order index at which its key, which
    /// the cache does not hold, belongs.
    pub open(crate) spec fn wf(&self) -> bool {
        &&& CAP > 0
        &&& self.const_lru.wf()
        &&& crate::keys::total_order::<K>()
        &&& self.const_lru.missing_at(self.key, self.insert_bs_i.as_nat() as int)
    }

    /// The borrow of the cache that the handle holds.
    pub open(crate) spec fn borrowed(&self) -> &'a mut ConstLru<K, V, CAP, I> {
        self.const_lru
    }

    /// The entries of the cache as they stand, from most to least recently
    /// used.
    pub open(crate) spec fn entries(&self) -> Seq<(K, V)> {
        self.const_lru@
    }

    /// The key that the handle would insert.
    pub open(crate) spec fn key_spec(&self) -> K {
        self.key
    }

    /// The handle's key is no key of the cache.
    pub proof fn lemma_absent(&self)
        requires
            self.wf(),
        ensures
            !has_key(self.entries(), self.key_spec()),
            self.entries().len() <= CAP,
    {
        self.const_lru.lemma_missing(self.key, self.insert_bs_i.as_nat() as int);
    }

    pub(crate) fn new(const_lru: &'a mut ConstLru<K, V, CAP, I>, key: K, insert_bs_i: I) -> (r:
        Self)
        requires
            CAP > 0,
            old(const_lru).wf(),
            crate::keys::total_order::<K>(),
            old(const_lru).missing_at(key, insert_bs_i.as_nat() as int),
        ensures
            r.wf(),
            r.entries() == old(const_lru)@,
            r.key_spec() == key,
            *final(r.borrowed()) == *final(const_lru),
    {
        Self { const_lru, key, insert_bs_i }
    }

    /// Take ownership of the key.
    pub fn into_key(self) -> (r: K)
        ensures
            r == self.key_spec(),
            *final(self.borrowed()) == *self.borrowed(),
    {
        self.key
    }

    /// Gets a reference to the key that would be used when inserting a value through the `VacantEntry`.
    pub fn key(&self) -> (r: &K)
        ensures
            *r == self.key_spec(),
    {
        &self.key
    }

    /// Sets the value of the entry with the `VacantEntry`’s key, and returns:
    /// - a mutable reference to the new value
    /// - LRU evicted entry, if ConstLru is full
    pub fn insert(self, v: V) -> (r: (&'a mut V, Option<(K, V)>))
        requires
            self.wf(),
        ensures
            *r.0 == v,
            r.1 == (if self.entries().len() == CAP {
                Some(self.entries().last())
            } else {
                None
            }),
            final(self.borrowed()).wf(),
            final(self.borrowed())@ == put(
                self.entries(),
                CAP as nat,
                self.key_spec(),
                *final(r.0),
            ),
    {
        proof {
            self.lemma_absent();
        }
        let ghost start = self.const_lru@;
        let ghost key = self.key;
        let (i, opt) = if self.const_lru.is_full() {
            let (i, (old_k, old_v)) = self.const_lru.insert_evict_lru(
                self.insert_bs_i,
                self.key,
                v,
            );
            (i, Some((old_k, old_v)))
        } else {
            let i = self.const_lru.insert_alloc_new(self.insert_bs_i, self.key, v);
            (i, None)
        };
        let ghost mid = self.const_lru@;
        proof {
            assert(mid == put(start, CAP as nat, key, v));
            assert forall|w: V| #[trigger]
                mid.update(0, (key, w)) =~= put(start, CAP as nat, key, w) by {}
        }
        (self.const_lru.get_mut_by_index(i), opt)
    }
}

} // verus!
