//! A handle on an entry that is present.

use vstd::prelude::*;

use crate::index::SlotIndex;
use crate::model::has_key;
use crate::model::index_of_key;
use crate::model::lookup;
use crate::model::put;
use crate::model::take_out;
use crate::model::touch;
use crate::ConstLru;

verus! {

/// A view into an occupied entry in a ConstLru. It is part of the Entry enum.
pub struct OccupiedEntry<'a, K, V, const CAP: usize, I: SlotIndex> {
    pub(crate) const_lru: &'a mut ConstLru<K, V, CAP, I>,
    pub(crate) key: K,
    pub(crate) index: I,
    pub(crate) bs_i: I,
}

impl<'a, K: Ord, V, const CAP: usize, I: SlotIndex> OccupiedEntry<'a, K, V, CAP, I> {
    /// The cache is well formed and the handle names the slot and the
    /// position in the order index at which the cache holds the key.
    pub open(crate) spec fn wf(&self) -> bool {
        &&& self.const_lru.wf()
        &&& crate::keys::total_order::<K>()
        &&& self.const_lru.found_at(
            self.key,
            self.index.as_nat() as int,
            self.bs_i.as_nat() as int,
        )
    }

    /// The borrow of the cache that the handle holds.
    pub open(crate) spec fn borrowed(&self) -> &'a mut ConstLru<K, V, CAP, I> {
        self.const_lru
    }

    /// The entries of the cache as they stand, from most to least recently
    /// used.
    pub open(crate) spec fn entries(&self) -> Seq<(K, V)> {
        self.const_lru@
    }

    /// The key of the entry.
    pub open(crate) spec fn key_spec(&self) -> K {
        self.key
    }

    /// The value of the entry as it stands.
    pub open(crate) spec fn value(&self) -> V {
        self.const_lru.value_at(self.index.as_nat() as int)
    }

    /// The handle's key is a key of the cache and its value is the value
    /// stored under it.
    pub proof fn lemma_present(&self)
        requires
            self.wf(),
        ensures
            has_key(self.entries(), self.key_spec()),
            lookup(self.entries(), self.key_spec()) == Some(self.value()),
            self.entries()[index_of_key(self.entries(), self.key_spec())] == (
                self.key_spec(),
                self.value(),
            ),
    {
        self.const_lru.lemma_found(self.key, self.index.as_nat() as int);
    }

    pub(crate) fn new(const_lru: &'a mut ConstLru<K, V, CAP, I>, key: K, index: I, bs_i: I) -> (r:
        Self)
        requires
            old(const_lru).wf(),
            crate::keys::total_order::<K>(),
            old(const_lru).found_at(key, index.as_nat() as int, bs_i.as_nat() as int),
        ensures
            r.wf(),
            r.entries() == old(const_lru)@,
            r.key_spec() == key,
            *final(r.borrowed()) == *final(const_lru),
    {
        Self { const_lru, key, index, bs_i }
    }

    /// Gets a reference to the value in the entry and moves entry to most recently used slot
    ///
    /// To not update to most-recently-used, use [`Self::get_untouched`]
    pub fn get(&mut self) -> (r: &V)
        requires
            old(self).wf(),
        ensures
            final(self).wf(),
            *final(final(self).borrowed()) == *final(old(self).borrowed()),
            final(self).key_spec() == old(self).key_spec(),
            final(self).entries() == touch(old(self).entries(), old(self).key_spec()),
            *r == old(self).value(),
            final(self).value() == old(self).value(),
    {
        proof {
            self.const_lru.lemma_found(self.key, self.index.as_nat() as int);
        }
        self.const_lru.move_to_head(self.index);
        self.const_lru.get_by_index(self.index)
    }

    /// Gets a reference to the value in the entry
    pub fn get_untouched(&self) -> (r: &V)
        requires
            self.wf(),
        ensures
            *r == self.value(),
    {
        self.const_lru.get_by_index(self.index)
    }

    /// Gets a mutable reference to the value in the entry and moves entry to most recently used slot
    ///
    /// To not update to most-recently-used, use [`Self::get_mut_untouched`]
    pub fn get_mut(&mut self) -> (r: &mut V)
        requires
            old(self).wf(),
        ensures
            final(self).wf(),
            *final(final(self).borrowed()) == *final(old(self).borrowed()),
            final(self).key_spec() == old(self).key_spec(),
            *r == old(self).value(),
            final(self).value() == *final(r),
            final(self).entries() == put(
                old(self).entries(),
                CAP as nat,
                old(self).key_spec(),
                *final(r),
            ),
    {
        proof {
            self.const_lru.lemma_found(self.key, self.index.as_nat() as int);
        }
        self.const_lru.move_to_head(self.index);
        let ghost mid = self.const_lru@;
        proof {
            assert forall|v: V| #[trigger]
                mid.update(0, (self.key, v)) =~= put(old(self).entries(), CAP as nat, self.key, v) by {}
        }
        self.const_lru.get_mut_by_index(self.index)
    }

    /// Gets a mutable reference to the value in the entry
    pub fn get_mut_untouched(&mut self) -> (r: &mut V)
        requires
            old(self).wf(),
        ensures
            final(self).wf(),
            *final(final(self).borrowed()) == *final(old(self).borrowed()),
            final(self).key_spec() == old(self).key_spec(),
            *r == old(self).value(),
            final(self).value() == *final(r),
            final(self).entries() == old(self).entries().update(
                index_of_key(old(self).entries(), old(self).key_spec()),
                (old(self).key_spec(), *final(r)),
            ),
    {
        proof {
            self.const_lru.lemma_found(self.key, self.index.as_nat() as int);
        }
        self.const_lru.get_mut_by_index(self.index)
    }

    /// Sets the value of the entry, and returns the entry's old value.
    pub fn insert(&mut self, v: V) -> (r: V)
        requires
            old(self).wf(),
        ensures
            final(self).wf(),
            *final(final(self).borrowed()) == *final(old(self).borrowed()),
            final(self).key_spec() == old(self).key_spec(),
            r == old(self).value(),
            final(self).value() == v,
            final(self).entries() == put(old(self).entries(), CAP as nat, old(self).key_spec(), v),
    {
        proof {
            self.const_lru.lemma_found(self.key, self.index.as_nat() as int);
        }
        self.const_lru.insert_replace_value(self.index, v)
    }

    /// Converts the `OccupiedEntry` into a mutable reference to the value in the entry with a lifetime bound to the ConstLru itself.
    /// Also moves the entry to most recently used slot
    ///
    /// To not update to most-recently-used, use [`Self::into_mut_untouched`]
    pub fn into_mut(self) -> (r: &'a mut V)
        requires
            self.wf(),
        ensures
            *r == self.value(),
            final(self.borrowed()).wf(),
            final(self.borrowed())@ == put(
                self.entries(),
                CAP as nat,
                self.key_spec(),
                *final(r),
            ),
    {
        proof {
            self.const_lru.lemma_found(self.key, self.index.as_nat() as int);
        }
        let ghost start = self.const_lru@;
        let ghost key = self.key;
        self.const_lru.move_to_head(self.index);
        let ghost mid = self.const_lru@;
        proof {
            assert forall|v: V| #[trigger]
                mid.update(0, (key, v)) =~= put(start, CAP as nat, key, v) by {}
        }
        self.const_lru.get_mut_by_index(self.index)
    }

    /// Converts the `OccupiedEntry` into a mutable reference to the value in the entry with a lifetime bound to the ConstLru itself.
    pub fn into_mut_untouched(self) -> (r: &'a mut V)
        requires
            self.wf(),
        ensures
            *r == self.value(),
            final(self.borrowed()).wf(),
            final(self.borrowed())@ == self.entries().update(
                index_of_key(self.entries(), self.key_spec()),
                (self.key_spec(), *final(r)),
            ),
    {
        proof {
            self.const_lru.lemma_found(self.key, self.index.as_nat() as int);
        }
        self.const_lru.get_mut_by_index(self.index)
    }

    /// Gets a reference to the key in the entry.
    pub fn key(&self) -> (r: &K)
        ensures
            *r == self.key_spec(),
    {
        &self.key
    }

    /// Takes the value out of the entry, and returns it.
    pub fn remove(self) -> (r: V)
        requires
            self.wf(),
        ensures
            r == self.value(),
            final(self.borrowed()).wf(),
            final(self.borrowed())@ == take_out(self.entries(), self.key_spec()),
    {
        proof {
            self.const_lru.lemma_found(self.key, self.index.as_nat() as int);
        }
        self.const_lru.remove_by_index(self.index, self.bs_i).1
    }

    /// Take the ownership of the key and value from the ConstLru
    pub fn remove_entry(self) -> (r: (K, V))
        requires
            self.wf(),
        ensures
            r == (self.key_spec(), self.value()),
            final(self.borrowed()).wf(),
            final(self.borrowed())@ == take_out(self.entries(), self.key_spec()),
    {
        proof {
            self.const_lru.lemma_found(self.key, self.index.as_nat() as int);
        }
        self.const_lru.remove_by_index(self.index, self.bs_i)
    }
}

} // verus!
