//! In-place manipulation of the entry of one key, found by one search.

use vstd::prelude::*;

pub mod occupied;
pub mod vacant;

pub use occupied::OccupiedEntry;
pub use vacant::VacantEntry;

use crate::index::SlotIndex;
use crate::keys::total_order;
use crate::model::has_key;
use crate::model::lookup;
use crate::model::put;
use crate::ConstLru;

verus! {

/// A view into a single entry in a ConstLru, which may either be vacant or occupied.
pub enum Entry<'a, K, V, const CAP: usize, I: SlotIndex> {
    Occupied(OccupiedEntry<'a, K, V, CAP, I>),
    Vacant(VacantEntry<'a, K, V, CAP, I>),
}

impl<'a, K: Ord, V, const CAP: usize, I: SlotIndex> Entry<'a, K, V, CAP, I> {
    /// The handle fits the cache that it holds.
    pub open spec fn wf(&self) -> bool {
        match self {
            Entry::Occupied(e) => e.wf(),
            Entry::Vacant(e) => e.wf(),
        }
    }

    /// The borrow of the cache that the handle holds.
    pub open spec fn borrowed(&self) -> &'a mut ConstLru<K, V, CAP, I> {
        match self {
            Entry::Occupied(e) => e.borrowed(),
            Entry::Vacant(e) => e.borrowed(),
        }
    }

    /// The entries of the cache as they stand, from most to least recently
    /// used.
    pub open spec fn entries(&self) -> Seq<(K, V)> {
        match self {
            Entry::Occupied(e) => e.entries(),
            Entry::Vacant(e) => e.entries(),
        }
    }

    /// The key of the handle.
    pub open spec fn key_spec(&self) -> K {
        match self {
            Entry::Occupied(e) => e.key_spec(),
            Entry::Vacant(e) => e.key_spec(),
        }
    }

    /// The handle is occupied exactly if the cache holds its key.
    pub proof fn lemma_occupied(&self)
        requires
            self.wf(),
        ensures
            (self is Occupied) == has_key(self.entries(), self.key_spec()),
            CAP > 0,
    {
        match self {
            Entry::Occupied(e) => {
                e.lemma_present();
            },
            Entry::Vacant(e) => {
                e.lemma_absent();
            },
        }
    }

    pub(crate) fn new(const_lru: &'a mut ConstLru<K, V, CAP, I>, k: K) -> (r: Self)
        requires
            CAP > 0,
            old(const_lru).wf(),
            total_order::<K>(),
        ensures
            r.wf(),
            r.entries() == old(const_lru)@,
            r.key_spec() == k,
            (r is Occupied) == has_key(old(const_lru)@, k),
            *final(r.borrowed()) == *final(const_lru),
    {
        let insert_bs_i = match const_lru.get_index_of(&k) {
            Ok((index, bs_i)) => {
                return Self::Occupied(OccupiedEntry::new(const_lru, k, index, bs_i));
            },
            Err(i) => i,
        };
        Self::Vacant(VacantEntry::new(const_lru, k, insert_bs_i))
    }

    /// Returns a reference to this entry’s key.
    pub fn key(&self) -> (r: &K)
        ensures
            *r == self.key_spec(),
    {
        match self {
            Self::Occupied(e) => e.key(),
            Self::Vacant(e) => e.key(),
        }
    }

    /// Ensures a value is in the entry by inserting the result of the default function if empty, and returns a mutable reference to the value in the entry.
    ///
    /// Also moves the entry to most-recently-used position if previously existing
    pub fn or_insert_with<F: FnOnce() -> V>(self, default: F) -> (r: &'a mut V)
        requires
            self.wf(),
            self is Vacant ==> default.requires(()),
        ensures
            match lookup(self.entries(), self.key_spec()) {
                Some(v) => *r == v,
                None => default.ensures((), *r),
            },
            final(self.borrowed()).wf(),
            final(self.borrowed())@ == put(
                self.entries(),
                CAP as nat,
                self.key_spec(),
                *final(r),
            ),
    {
        proof {
            self.lemma_occupied();
        }
        match self {
            Self::Occupied(e) => {
                proof {
                    e.lemma_present();
                }
                e.into_mut()
            },
            Self::Vacant(e) => e.insert(default()).0,
        }
    }

    /// Ensures a value is in the entry by inserting, if empty, the result of the default function .
    /// This method allows for generating key-derived values for insertion by providing the default function a reference to the key
    /// that was moved during the .entry(key) method call.
    pub fn or_insert_with_key<F: FnOnce(&K) -> V>(self, default: F) -> (r: &'a mut V)
        requires
            self.wf(),
            self is Vacant ==> default.requires((&self.key_spec(),)),
        ensures
            match lookup(self.entries(), self.key_spec()) {
                Some(v) => *r == v,
                None => default.ensures((&self.key_spec(),), *r),
            },
            final(self.borrowed()).wf(),
            final(self.borrowed())@ == put(
                self.entries(),
                CAP as nat,
                self.key_spec(),
                *final(r),
            ),
    {
        proof {
            self.lemma_occupied();
        }
        match self {
            Self::Occupied(e) => {
                proof {
                    e.lemma_present();
                }
                e.into_mut()
            },
            Self::Vacant(e) => {
                let v = default(e.key());
                e.insert(v).0
            },
        }
    }

    /// Ensures a value is in the entry by inserting the default if empty, and returns a mutable reference to the value in the entry.
    ///
    /// Also moves the entry to most-recently-used position if previously existing
    pub fn or_insert(self, default: V) -> (r: &'a mut V)
        requires
            self.wf(),
        ensures
            match lookup(self.entries(), self.key_spec()) {
                Some(v) => *r == v,
                None => *r == default,
            },
            final(self.borrowed()).wf(),
            final(self.borrowed())@ == put(
                self.entries(),
                CAP as nat,
                self.key_spec(),
                *final(r),
            ),
    {
        proof {
            self.lemma_occupied();
        }
        match self {
            Self::Occupied(e) => {
                proof {
                    e.lemma_present();
                }
                e.into_mut()
            },
            Self::Vacant(e) => e.insert(default).0,
        }
    }
}

impl<'a, K: Ord, V: Default, const CAP: usize, I: SlotIndex> Entry<'a, K, V, CAP, I> {
    /// Ensures a value is in the entry by inserting the default value if empty, and returns a mutable reference to the value in the entry.
    ///
    /// Also moves the entry to most-recently-used position if previously existing
    pub fn or_default(self) -> (r: &'a mut V)
        requires
            self.wf(),
        ensures
            match lookup(self.entries(), self.key_spec()) {
                Some(v) => *r == v,
                None => call_ensures(V::default, (), *r),
            },
            final(self.borrowed()).wf(),
            final(self.borrowed())@ == put(
                self.entries(),
                CAP as nat,
                self.key_spec(),
                *final(r),
            ),
    {
        self.or_insert(V::default())
    }
}

} // verus!
