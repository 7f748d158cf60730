//! Unsigned integer types that can number the slots of a cache.

use vstd::prelude::*;

verus! {

/// An unsigned integer type used to store slot indices.
///
/// A cache with capacity `CAP` stores the numbers `0..=CAP` in values of this
/// type, the number `CAP` itself standing for "no slot".
pub trait SlotIndex: Copy + Sized {
    /// The number this value stands for.
    spec fn as_nat(self) -> nat;

    /// The largest number the type can hold.
    spec fn max_nat() -> nat;

    /// No value exceeds the largest number of its type.
    proof fn lemma_bounded(self)
        ensures
            self.as_nat() <= Self::max_nat(),
    ;

    /// Two values that stand for the same number are the same value.
    proof fn lemma_injective(a: Self, b: Self)
        requires
            a.as_nat() == b.as_nat(),
        ensures
            a == b,
    ;

    /// The largest number of the type as a `usize`, if it fits in one.
    fn max_usize() -> (r: Option<usize>)
        ensures
            r == (if Self::max_nat() <= usize::MAX {
                Some(Self::max_nat() as usize)
            } else {
                None
            }),
    ;

    /// The value that stands for `n`, if the type can hold it.
    fn from_usize(n: usize) -> (r: Option<Self>)
        ensures
            n <= Self::max_nat() <==> r.is_some(),
            r.is_some() ==> r.unwrap().as_nat() == n,
    ;

    /// The number this value stands for as a `usize`, if it fits in one.
    fn to_usize(self) -> (r: Option<usize>)
        ensures
            r == (if self.as_nat() <= usize::MAX {
                Some(self.as_nat() as usize)
            } else {
                None
            }),
    ;

    /// Whether two values stand for the same number.
    fn same(self, other: Self) -> (r: bool)
        ensures
            r == (self.as_nat() == other.as_nat()),
    ;
}

impl SlotIndex for u8 {
    open spec fn as_nat(self) -> nat {
        self as nat
    }

    open spec fn max_nat() -> nat {
        u8::MAX as nat
    }

    proof fn lemma_bounded(self) {
    }

    proof fn lemma_injective(a: Self, b: Self) {
    }

    fn max_usize() -> (r: Option<usize>) {
        Some(u8::MAX as usize)
    }

    fn from_usize(n: usize) -> (r: Option<Self>) {
        if n <= u8::MAX as usize {
            Some(n as u8)
        } else {
            None
        }
    }

    fn to_usize(self) -> (r: Option<usize>) {
        Some(self as usize)
    }

    fn same(self, other: Self) -> (r: bool) {
        self == other
    }
}

impl SlotIndex for u16 {
    open spec fn as_nat(self) -> nat {
        self as nat
    }

    open spec fn max_nat() -> nat {
        u16::MAX as nat
    }

    proof fn lemma_bounded(self) {
    }

    proof fn lemma_injective(a: Self, b: Self) {
    }

    fn max_usize() -> (r: Option<usize>) {
        Some(u16::MAX as usize)
    }

    fn from_usize(n: usize) -> (r: Option<Self>) {
        if n <= u16::MAX as usize {
            Some(n as u16)
        } else {
            None
        }
    }

    fn to_usize(self) -> (r: Option<usize>) {
        Some(self as usize)
    }

    fn same(self, other: Self) -> (r: bool) {
        self == other
    }
}

impl SlotIndex for u32 {
    open spec fn as_nat(self) -> nat {
        self as nat
    }

    open spec fn max_nat() -> nat {
        u32::MAX as nat
    }

    proof fn lemma_bounded(self) {
    }

    proof fn lemma_injective(a: Self, b: Self) {
    }

    fn max_usize() -> (r: Option<usize>) {
        Some(u32::MAX as usize)
    }

    fn from_usize(n: usize) -> (r: Option<Self>) {
        if n <= u32::MAX as usize {
            Some(n as u32)
        } else {
            None
        }
    }

    fn to_usize(self) -> (r: Option<usize>) {
        Some(self as usize)
    }

    fn same(self, other: Self) -> (r: bool) {
        self == other
    }
}

impl SlotIndex for u64 {
    open spec fn as_nat(self) -> nat {
        self as nat
    }

    open spec fn max_nat() -> nat {
        u64::MAX as nat
    }

    proof fn lemma_bounded(self) {
    }

    proof fn lemma_injective(a: Self, b: Self) {
    }

    fn max_usize() -> (r: Option<usize>) {
        if u64::MAX <= usize::MAX as u64 {
            Some(u64::MAX as usize)
        } else {
            None
        }
    }

    fn from_usize(n: usize) -> (r: Option<Self>) {
        Some(n as u64)
    }

    fn to_usize(self) -> (r: Option<usize>) {
        if self <= usize::MAX as u64 {
            Some(self as usize)
        } else {
            None
        }
    }

    fn same(self, other: Self) -> (r: bool) {
        self == other
    }
}

impl SlotIndex for u128 {
    open spec fn as_nat(self) -> nat {
        self as nat
    }

    open spec fn max_nat() -> nat {
        u128::MAX as nat
    }

    proof fn lemma_bounded(self) {
    }

    proof fn lemma_injective(a: Self, b: Self) {
    }

    fn max_usize() -> (r: Option<usize>) {
        None
    }

    fn from_usize(n: usize) -> (r: Option<Self>) {
        Some(n as u128)
    }

    fn to_usize(self) -> (r: Option<usize>) {
        if self <= usize::MAX as u128 {
            Some(self as usize)
        } else {
            None
        }
    }

    fn same(self, other: Self) -> (r: bool) {
        self == other
    }
}

impl SlotIndex for usize {
    open spec fn as_nat(self) -> nat {
        self as nat
    }

    open spec fn max_nat() -> nat {
        usize::MAX as nat
    }

    proof fn lemma_bounded(self) {
    }

    proof fn lemma_injective(a: Self, b: Self) {
    }

    fn max_usize() -> (r: Option<usize>) {
        Some(usize::MAX)
    }

    fn from_usize(n: usize) -> (r: Option<Self>) {
        Some(n)
    }

    fn to_usize(self) -> (r: Option<usize>) {
        Some(self)
    }

    fn same(self, other: Self) -> (r: bool) {
        self == other
    }
}

/// The slot number held in `i`.
pub fn slot_of<I: SlotIndex>(i: I) -> (r: usize)
    requires
        i.as_nat() <= usize::MAX,
    ensures
        r == i.as_nat(),
{
    match i.to_usize() {
        Some(n) => n,
        None => vstd::pervasive::unreached(),
    }
}

/// The value of type `I` that holds the slot number `n`.
pub fn index_of<I: SlotIndex>(n: usize) -> (r: I)
    requires
        n <= I::max_nat(),
    ensures
        r.as_nat() == n,
{
    match I::from_usize(n) {
        Some(i) => i,
        None => vstd::pervasive::unreached(),
    }
}

} // verus!
