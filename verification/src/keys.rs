//! The order of the keys: what is asked of `Ord` and how keys are compared.

use core::cmp::Ordering;
use vstd::prelude::*;
use vstd::std_specs::cmp::OrdSpec;
use vstd::std_specs::cmp::PartialOrdSpec;
use vstd::std_specs::cmp::PartialEqSpec;

verus! {

/// Outcome of comparing two keys.
#[derive(Clone, Copy, Debug, PartialEq, Eq, Structural)]
pub enum KeyOrder {
    Less,
    Equal,
    Greater,
}

/// Whether `Ord` orders the keys of type `K` totally and calls two keys
/// equal exactly if they are the same: what every operation that looks a
/// key up relies on.
pub open spec fn total_order<K: Ord>() -> bool {
    &&& vstd::laws_cmp::obeys_cmp::<K>()
    &&& vstd::laws_eq::obeys_concrete_eq::<K>()
}

/// Whether the key `a` comes before the key `b`.
pub open spec fn key_lt<K: Ord>(a: K, b: K) -> bool {
    a.cmp_spec(&b) == Ordering::Less
}

/// How the key `a` stands to the key `b`.
pub open spec fn key_order<K: Ord>(a: K, b: K) -> KeyOrder {
    if key_lt(a, b) {
        KeyOrder::Less
    } else if a == b {
        KeyOrder::Equal
    } else {
        KeyOrder::Greater
    }
}

/// In a total order no key comes before itself, of two different keys one
/// comes before the other and not the other way round, and what comes
/// before a key comes before all that it comes before.
pub proof fn lemma_total_order<K: Ord>(a: K, b: K, c: K)
    requires
        total_order::<K>(),
    ensures
        !key_lt(a, a),
        key_lt(a, b) && key_lt(b, c) ==> key_lt(a, c),
        key_lt(a, b) || a == b || key_lt(b, a),
        !(key_lt(a, b) && key_lt(b, a)),
{
    lemma_order_facts(a, b, c);
}

/// What the laws of `Ord` give for three keys, in the terms of `Ord` itself.
proof fn lemma_order_facts<K: Ord>(a: K, b: K, c: K)
    requires
        total_order::<K>(),
    ensures
        !key_lt(a, a),
        key_lt(a, b) && key_lt(b, c) ==> key_lt(a, c),
        key_lt(a, b) || a == b || key_lt(b, a),
        !(key_lt(a, b) && key_lt(b, a)),
        a.cmp_spec(&b) == Ordering::Equal <==> a == b,
        K::obeys_cmp_spec(),
{
    reveal(vstd::laws_cmp::obeys_partial_cmp_spec_properties);
    reveal(vstd::laws_cmp::obeys_cmp_partial_ord);
    reveal(vstd::laws_cmp::obeys_cmp_ord);
    reveal(vstd::laws_eq::obeys_concrete_eq);
    reveal(vstd::laws_eq::obeys_eq_spec_properties);
    assert(a.partial_cmp_spec(&b) == Some(a.cmp_spec(&b)));
    assert(b.partial_cmp_spec(&a) == Some(b.cmp_spec(&a)));
    assert(a.partial_cmp_spec(&a) == Some(a.cmp_spec(&a)));
    assert(b.partial_cmp_spec(&c) == Some(b.cmp_spec(&c)));
    assert(a.partial_cmp_spec(&c) == Some(a.cmp_spec(&c)));
}

/// Compares two keys.
pub fn compare<K: Ord>(a: &K, b: &K) -> (r: KeyOrder)
    requires
        total_order::<K>(),
    ensures
        r == key_order(*a, *b),
{
    proof {
        lemma_order_facts(*a, *b, *a);
    }
    match a.cmp(b) {
        Ordering::Less => KeyOrder::Less,
        Ordering::Equal => KeyOrder::Equal,
        Ordering::Greater => KeyOrder::Greater,
    }
}

} // verus!
