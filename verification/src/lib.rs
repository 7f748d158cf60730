//! Constant-capacity, key-addressed LRU cache.
//!
//! A [`ConstLru`] holds at most `CAP` key-value entries. All of its storage is
//! allocated when it is made and never grows. Every entry is threaded through a
//! doubly-linked recency list, which also threads the vacant slots behind the
//! least-recently-used entry, and is listed in an index kept sorted by key, so
//! lookup is a binary search.
//!
//! The abstract value of a cache (its view, `c@`) is the sequence of its
//! entries from most-recently-used to least-recently-used. The functions of
//! [`model`] say what each operation does to that sequence.

use vstd::prelude::*;

pub mod entry;
pub mod errs;
pub mod index;
pub mod iters;
pub mod keys;
pub mod laws;
pub mod model;

mod builder;
mod cloning;
mod links;
mod ops;
mod order;

pub use entry::Entry;
pub use entry::OccupiedEntry;
pub use entry::VacantEntry;
pub use errs::DuplicateKeysError;
pub use index::SlotIndex;
pub use iters::double_ended_iter_cursors::DoubleEndedIterCursors;
pub use iters::in_order_bst::DoubleEndedInOrderTraverser;
pub use iters::in_order_bst::InOrderTraversalState;
pub use iters::in_order_bst::InOrderTraverser;
pub use iters::in_order_bst::TreeLinks;
pub use iters::into_iter::IntoIter;
pub use iters::iter::Iter;
pub use iters::iter_key_order::IterKeyOrder;
pub use iters::iter_key_order_mut::IterKeyOrderMut;
pub use iters::iter_mut::IterMut;

use index::index_of;
use index::slot_of;
use keys::key_lt;

verus! {

/// Constant capacity key-addressed LRU cache.
///
/// Generics:
/// - `K`. Type of key. `Ord` is used for lookup and to address entries.
/// - `V`. Type of value.
/// - `CAP`. Capacity of the cache.
/// - `I`. Type of the index used. Must be able to hold the numbers `0..=CAP`.
pub struct ConstLru<K, V, const CAP: usize, I: SlotIndex = usize> {
    len: I,
    /// Slot of the most recently used entry, `CAP` if the cache is empty.
    head: I,
    /// Slot of the least recently used entry. If the cache is empty, the
    /// first vacant slot; else the slot after it is the first vacant slot.
    tail: I,
    /// Occupied slots in ascending order of their keys, at positions `0..len`.
    bs_index: Vec<I>,
    /// Successor of each slot in the recency list, `CAP` if there is none.
    nexts: Vec<I>,
    /// Predecessor of each slot in the recency list, `CAP` if there is none.
    prevs: Vec<I>,
    keys: Vec<Option<K>>,
    values: Vec<Option<V>>,
    /// All slots in the order of the recency list: the occupied slots from
    /// most to least recently used, then the vacant ones.
    chain: Ghost<Seq<int>>,
    /// Position of each slot in `chain`.
    place: Ghost<Seq<int>>,
    /// Position of each occupied slot in `bs_index`.
    rank: Ghost<Seq<int>>,
}

/// Optional return type of [`ConstLru::insert`]
#[derive(Debug, Clone, Copy, PartialEq, Eq)]
pub enum InsertReplaced<K, V> {
    LruEvicted(K, V),
    OldValue(V),
}

impl<K: Ord, V, const CAP: usize, I: SlotIndex> View for ConstLru<K, V, CAP, I> {
    type V = Seq<(K, V)>;

    /// The entries from most recently used to least recently used.
    open(crate) spec fn view(&self) -> Seq<(K, V)> {
        Seq::new(self.count() as nat, |i: int| self.entry_at(self.chain@[i]))
    }
}

impl<K: Ord, V, const CAP: usize, I: SlotIndex> ConstLru<K, V, CAP, I> {
    /// Number of occupied slots.
    pub open(crate) spec fn count(&self) -> int {
        self.len.as_nat() as int
    }

    /// Slot that `head` names.
    pub open(crate) spec fn head_slot(&self) -> int {
        self.head.as_nat() as int
    }

    /// Slot that `tail` names.
    pub open(crate) spec fn tail_slot(&self) -> int {
        self.tail.as_nat() as int
    }

    /// Successor link stored for slot `s`.
    pub open(crate) spec fn next_of(&self, s: int) -> int {
        self.nexts@[s].as_nat() as int
    }

    /// Predecessor link stored for slot `s`.
    pub open(crate) spec fn prev_of(&self, s: int) -> int {
        self.prevs@[s].as_nat() as int
    }

    /// Slot stored at position `r` of the order index.
    pub open(crate) spec fn order_slot(&self, r: int) -> int {
        self.bs_index@[r].as_nat() as int
    }

    /// Whether slot `s` holds an entry.
    pub open(crate) spec fn occupied(&self, s: int) -> bool {
        self.keys@[s].is_some()
    }

    /// Key held in slot `s`.
    pub open(crate) spec fn key_at(&self, s: int) -> K {
        self.keys@[s].unwrap()
    }

    /// Value held in slot `s`.
    pub open(crate) spec fn value_at(&self, s: int) -> V {
        self.values@[s].unwrap()
    }

    /// Entry held in slot `s`.
    pub open(crate) spec fn entry_at(&self, s: int) -> (K, V) {
        (self.key_at(s), self.value_at(s))
    }

    /// Key of the occupied slot at position `r` of the order index.
    pub open(crate) spec fn rank_key(&self, r: int) -> K {
        self.key_at(self.order_slot(r))
    }

    /// All slots in the order in which the recency list threads them.
    pub open(crate) spec fn recency_chain(&self) -> Seq<int> {
        self.chain@
    }

    /// Slot that follows position `p` of the chain, `CAP` after the last.
    pub open(crate) spec fn after(&self, p: int) -> int {
        if p + 1 < CAP {
            self.chain@[p + 1]
        } else {
            CAP as int
        }
    }

    /// Slot that precedes position `p` of the chain, `CAP` before the first.
    pub open(crate) spec fn before(&self, p: int) -> int {
        if p > 0 {
            self.chain@[p - 1]
        } else {
            CAP as int
        }
    }

    /// The arrays have their length and every stored index is at most `CAP`.
    pub open(crate) spec fn shape_ok(&self) -> bool {
        &&& CAP <= I::max_nat()
        &&& I::max_nat() <= usize::MAX
        &&& self.bs_index@.len() == CAP
        &&& self.nexts@.len() == CAP
        &&& self.prevs@.len() == CAP
        &&& self.keys@.len() == CAP
        &&& self.values@.len() == CAP
        &&& self.count() <= CAP
        &&& self.head_slot() <= CAP
        &&& self.tail_slot() <= CAP
        &&& forall|s: int| 0 <= s < CAP ==> (#[trigger] self.nexts@[s]).as_nat() <= CAP
        &&& forall|s: int| 0 <= s < CAP ==> (#[trigger] self.prevs@[s]).as_nat() <= CAP
        &&& forall|r: int| 0 <= r < CAP ==> (#[trigger] self.bs_index@[r]).as_nat() <= CAP
    }

    /// `chain` lists every slot once and `place` is its inverse.
    pub open(crate) spec fn chain_ok(&self) -> bool {
        &&& self.chain@.len() == CAP
        &&& self.place@.len() == CAP
        &&& self.rank@.len() == CAP
        &&& forall|i: int|
            0 <= i < CAP ==> 0 <= #[trigger] self.chain@[i] < CAP && self.place@[self.chain@[i]]
                == i
        &&& forall|s: int|
            0 <= s < CAP ==> 0 <= #[trigger] self.place@[s] < CAP && self.chain@[self.place@[s]]
                == s
    }

    /// The stored links thread the slots in the order of `chain`.
    pub open(crate) spec fn wired(&self) -> bool {
        &&& forall|s: int|
            0 <= s < CAP ==> (#[trigger] self.nexts@[s]).as_nat() == self.after(self.place@[s])
        &&& forall|s: int|
            0 <= s < CAP ==> (#[trigger] self.prevs@[s]).as_nat() == self.before(self.place@[s])
    }

    /// The arrays have their shape and the links thread all slots in the
    /// order of `chain`, whatever the slots hold.
    pub open(crate) spec fn threaded(&self) -> bool {
        &&& self.shape_ok()
        &&& self.chain_ok()
        &&& self.wired()
    }

    /// The stored links, `head` and `tail` thread the slots in the order of `chain`.
    pub open(crate) spec fn links_ok(&self) -> bool {
        &&& self.wired()
        &&& self.head_slot() == (if self.count() > 0 {
            self.chain@[0]
        } else {
            CAP as int
        })
        &&& self.tail_slot() == (if self.count() > 0 {
            self.chain@[self.count() - 1]
        } else if CAP > 0 {
            self.chain@[0]
        } else {
            0
        })
    }

    /// Exactly the first `len` slots of the chain hold a key and a value.
    pub open(crate) spec fn cells_ok(&self) -> bool {
        &&& forall|s: int|
            0 <= s < CAP ==> (#[trigger] self.keys@[s]).is_some() == (self.place@[s]
                < self.count())
        &&& forall|s: int|
            0 <= s < CAP ==> (#[trigger] self.values@[s]).is_some() == (self.place@[s]
                < self.count())
    }

    /// The order index lists every occupied slot once, by strictly ascending key.
    pub open(crate) spec fn order_ok(&self) -> bool {
        &&& forall|r: int|
            0 <= r < self.count() ==> {
                &&& (#[trigger] self.bs_index@[r]).as_nat() < CAP
                &&& self.place@[self.order_slot(r)] < self.count()
                &&& self.rank@[self.order_slot(r)] == r
            }
        &&& forall|s: int|
            0 <= s < CAP && self.place@[s] < self.count() ==> {
                &&& 0 <= #[trigger] self.rank@[s] < self.count()
                &&& self.order_slot(self.rank@[s]) == s
            }
        &&& forall|q: int, r: int|
            #![trigger self.bs_index@[q], self.bs_index@[r]]
            0 <= q < r < self.count() ==> key_lt(self.rank_key(q), self.rank_key(r))
    }

    /// The invariant of the cache: the recency list, the free list and the
    /// order index all describe the same set of occupied slots.
    pub open(crate) spec fn wf(&self) -> bool {
        &&& self.shape_ok()
        &&& self.chain_ok()
        &&& self.links_ok()
        &&& self.cells_ok()
        &&& self.order_ok()
    }

    /// An empty cache whose arrays are not allocated yet: it has no slots
    /// and no entries, and `len`, `head` and `tail` are zero.
    pub(crate) fn hollow() -> (c: Self)
        ensures
            c.count() == 0,
            c.head_slot() == 0,
            c.tail_slot() == 0,
            c.bs_index@ == Seq::<I>::empty(),
            c.nexts@ == Seq::<I>::empty(),
            c.prevs@ == Seq::<I>::empty(),
            c.keys@ == Seq::<Option<K>>::empty(),
            c.values@ == Seq::<Option<V>>::empty(),
            c.chain@ == Seq::<int>::empty(),
            c.place@ == Seq::<int>::empty(),
            c.rank@ == Seq::<int>::empty(),
            c@ == Seq::<(K, V)>::empty(),
    {
        ConstLru {
            len: index_zero::<I>(),
            head: index_zero::<I>(),
            tail: index_zero::<I>(),
            bs_index: Vec::new(),
            nexts: Vec::new(),
            prevs: Vec::new(),
            keys: Vec::new(),
            values: Vec::new(),
            chain: Ghost(Seq::empty()),
            place: Ghost(Seq::empty()),
            rank: Ghost(Seq::empty()),
        }
    }

    /// Creates a new empty `ConstLru`.
    ///
    /// The capacity must be a number that `I` can hold, and what `I` can hold
    /// must fit in a `usize`.
    pub fn new() -> (c: Self)
        requires
            CAP <= I::max_nat(),
            I::max_nat() <= usize::MAX,
        ensures
            c.wf(),
            c@ == Seq::<(K, V)>::empty(),
            c.recency_chain() == Seq::new(CAP as nat, |i: int| i),
    {
        let mut res = Self::hollow();
        Self::init_at_alloc(&mut res);
        res
    }

    /// Initializes the `ConstLru` at `dst` as an empty cache, whatever it
    /// held before.
    ///
    /// The links are set to thread the slots `0, 1, .., CAP - 1`, all vacant.
    pub fn init_at_alloc(dst: &mut Self)
        requires
            CAP <= I::max_nat(),
            I::max_nat() <= usize::MAX,
        ensures
            final(dst).wf(),
            final(dst)@ == Seq::<(K, V)>::empty(),
            final(dst).recency_chain() == Seq::new(CAP as nat, |i: int| i),
    {
        let cap: I = index_of::<I>(CAP);
        dst.len = index_zero::<I>();
        dst.head = cap;
        dst.tail = index_zero::<I>();

        // nexts = [1, 2, ..., cap-1, cap]
        fill_successors(&mut dst.nexts, CAP);

        // prevs = [cap, 0, 1, ..., cap-2]
        fill_predecessors(&mut dst.prevs, CAP);

        // bs_index = [cap, ..., cap]
        fill_with(&mut dst.bs_index, CAP, cap);

        // no slot holds a key or a value
        fill_vacant(&mut dst.keys, CAP);
        fill_vacant(&mut dst.values, CAP);
        proof {
            dst.chain = Ghost(Seq::new(CAP as nat, |i: int| i));
            dst.place = Ghost(Seq::new(CAP as nat, |i: int| i));
            dst.rank = Ghost(Seq::new(CAP as nat, |i: int| 0int));
            assert(dst@ =~= Seq::<(K, V)>::empty());
        }
    }

    /// Creates an iterator that iterates through the keys and values of the `ConstLru` from most-recently-used to least-recently-used
    ///
    /// Does not change the LRU order of the elements.
    ///
    /// Double-ended: reversing iterates from least-recently-used to most-recently-used
    pub fn iter(&self) -> (r: Iter<'_, K, V, CAP, I>)
        requires
            self.wf(),
        ensures
            r.wf(),
            r.remaining() == self@,
    {
        Iter::new(self)
    }

    /// Creates an iterator that iterates through the keys and mutable values of the `ConstLru` from most-recently-used to least-recently-used
    ///
    /// Does not change the LRU order of the elements, even if mutated.
    ///
    /// Double-ended: reversing iterates from least-recently-used to most-recently-used
    pub fn iter_mut(&mut self) -> (r: IterMut<'_, K, V, CAP, I>)
        requires
            old(self).wf(),
        ensures
            r.wf(),
            r.remaining() == old(self)@,
            r.entries() == old(self)@,
            r.front() == 0,
            *final(r.borrowed()) == *final(self),
    {
        IterMut::new(self)
    }

    /// Creates an iterator that iterates through the keys and values of the `ConstLru` in the order of its keys
    ///
    /// Does not change the LRU order of the elements.
    ///
    /// Double-ended: reversing iterates from descending order of its keys
    pub fn iter_key_order(&self) -> (r: IterKeyOrder<'_, K, V, CAP, I>)
        requires
            self.wf(),
        ensures
            r.wf(),
            r.remaining() == self.by_key(),
    {
        IterKeyOrder::new(self)
    }

    /// Creates an iterator that iterates through the keys and mutable values of the `ConstLru` in the order of its keys
    ///
    /// Does not change the LRU order of the elements, even if mutated.
    ///
    /// Double-ended: reversing iterates from descending order of its keys
    pub fn iter_key_order_mut(&mut self) -> (r: IterKeyOrderMut<'_, K, V, CAP, I>)
        requires
            old(self).wf(),
        ensures
            r.wf(),
            r.remaining() == old(self).by_key(),
            r.entries() == old(self).by_key(),
            r.lo() == 0,
            *final(r.borrowed()) == *final(self),
    {
        IterKeyOrderMut::new(self)
    }

    /// Creates an iterator that takes the keys and values out of the `ConstLru` from most-recently-used to least-recently-used
    ///
    /// Double-ended: reversing iterates from least-recently-used to most-recently-used
    pub fn into_iter(self) -> (r: IntoIter<K, V, CAP, I>)
        requires
            self.wf(),
        ensures
            r.wf(),
            r.remaining() == self@,
    {
        IntoIter::new(self)
    }

    /// Gets the given key’s corresponding entry in the map for in-place manipulation.
    ///
    /// The capacity must not be zero.
    pub fn entry(&mut self, k: K) -> (r: Entry<'_, K, V, CAP, I>)
        requires
            CAP > 0,
            old(self).wf(),
            keys::total_order::<K>(),
        ensures
            r.wf(),
            r.entries() == old(self)@,
            r.key_spec() == k,
            (r is Occupied) == model::has_key(old(self)@, k),
            *final(r.borrowed()) == *final(self),
    {
        Entry::new(self, k)
    }

    /// Clears the `ConstLru`, removing all key-value pairs.
    pub fn clear(&mut self)
        requires
            old(self).wf(),
        ensures
            final(self).wf(),
            final(self)@ == Seq::<(K, V)>::empty(),
    {
        Self::init_at_alloc(self);
    }

    /// Returns the maximum number of elements this `ConstLru` can hold
    pub fn cap(&self) -> (r: I)
        requires
            self.wf(),
        ensures
            r.as_nat() == CAP,
    {
        index_of::<I>(CAP)
    }

    /// Returns `true` if the `ConstLru` contains no elements.
    pub fn is_empty(&self) -> (r: bool)
        requires
            self.wf(),
        ensures
            r == (self@.len() == 0),
    {
        slot_of(self.len()) == 0
    }

    /// Returns `true` if the `ConstLru` has reached max capacity.
    pub fn is_full(&self) -> (r: bool)
        requires
            self.wf(),
        ensures
            r == (self@.len() == CAP),
    {
        slot_of(self.len()) == CAP
    }

    /// Returns the number of elements in the `ConstLru`.
    pub fn len(&self) -> (r: I)
        requires
            self.wf(),
        ensures
            r.as_nat() == self@.len(),
    {
        self.len
    }
}

/// Makes `v` the list of the successors of the slots `0..cap` in their own
/// order: `1, 2, .., cap`.
fn fill_successors<I: SlotIndex>(v: &mut Vec<I>, cap: usize)
    requires
        cap <= I::max_nat(),
    ensures
        final(v)@.len() == cap,
        forall|j: int| 0 <= j < cap ==> (#[trigger] final(v)@[j]).as_nat() == j + 1,
{
    v.clear();
    v.reserve(cap);
    let mut i: usize = 0;
    while i < cap
        invariant
            i <= cap <= I::max_nat(),
            v@.len() == i,
            forall|j: int| 0 <= j < i ==> (#[trigger] v@[j]).as_nat() == j + 1,
        decreases cap - i,
    {
        v.push(index_of::<I>(i + 1));
        i += 1;
    }
}

/// Makes `v` the list of the predecessors of the slots `0..cap` in their own
/// order: `cap, 0, 1, .., cap - 2`.
fn fill_predecessors<I: SlotIndex>(v: &mut Vec<I>, cap: usize)
    requires
        cap <= I::max_nat(),
    ensures
        final(v)@.len() == cap,
        forall|j: int|
            0 <= j < cap ==> (#[trigger] final(v)@[j]).as_nat() == (if j == 0 {
                cap as int
            } else {
                j - 1
            }),
{
    v.clear();
    v.reserve(cap);
    let mut i: usize = 0;
    while i < cap
        invariant
            i <= cap <= I::max_nat(),
            v@.len() == i,
            forall|j: int|
                0 <= j < i ==> (#[trigger] v@[j]).as_nat() == (if j == 0 {
                    cap as int
                } else {
                    j - 1
                }),
        decreases cap - i,
    {
        if i == 0 {
            v.push(index_of::<I>(cap));
        } else {
            v.push(index_of::<I>(i - 1));
        }
        i += 1;
    }
}

/// Makes `v` a list of `cap` times `x`.
fn fill_with<I: SlotIndex>(v: &mut Vec<I>, cap: usize, x: I)
    ensures
        final(v)@.len() == cap,
        forall|j: int| 0 <= j < cap ==> #[trigger] final(v)@[j] == x,
{
    v.clear();
    v.reserve(cap);
    let mut i: usize = 0;
    while i < cap
        invariant
            i <= cap,
            v@.len() == i,
            forall|j: int| 0 <= j < i ==> #[trigger] v@[j] == x,
        decreases cap - i,
    {
        v.push(x);
        i += 1;
    }
}

/// Makes `v` a list of `cap` empty cells.
fn fill_vacant<T>(v: &mut Vec<Option<T>>, cap: usize)
    ensures
        final(v)@.len() == cap,
        forall|j: int| 0 <= j < cap ==> (#[trigger] final(v)@[j]).is_none(),
{
    v.clear();
    v.reserve(cap);
    let mut i: usize = 0;
    while i < cap
        invariant
            i <= cap,
            v@.len() == i,
            forall|j: int| 0 <= j < i ==> (#[trigger] v@[j]).is_none(),
        decreases cap - i,
    {
        v.push(None);
        i += 1;
    }
}

/// The value of type `I` that holds zero.
fn index_zero<I: SlotIndex>() -> (r: I)
    ensures
        r.as_nat() == 0,
{
    match I::from_usize(0) {
        Some(i) => i,
        None => vstd::pervasive::unreached(),
    }
}

} // verus!
