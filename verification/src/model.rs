//! What the operations of the cache do to its sequence of entries.
//!
//! A cache is described by the sequence of its entries from most recently
//! used to least recently used, in which no key occurs twice.

use vstd::prelude::*;

use crate::InsertReplaced;

verus! {

/// The sequence `s` with its element at `i` moved to the front.
pub open spec fn promote<T>(s: Seq<T>, i: int) -> Seq<T> {
    seq![s[i]] + s.remove(i)
}

/// Whether some entry of `s` has the key `k`.
pub open spec fn has_key<K, V>(s: Seq<(K, V)>, k: K) -> bool {
    exists|i: int| 0 <= i < s.len() && (#[trigger] s[i]).0 == k
}

/// Position in `s` of an entry with the key `k`.
pub open spec fn index_of_key<K, V>(s: Seq<(K, V)>, k: K) -> int {
    choose|i: int| 0 <= i < s.len() && (#[trigger] s[i]).0 == k
}

/// No key occurs in two entries of `s`.
pub open spec fn distinct_keys<K, V>(s: Seq<(K, V)>) -> bool {
    forall|i: int, j: int|
        0 <= i < j < s.len() ==> (#[trigger] s[i]).0 != (#[trigger] s[j]).0
}

/// The key `k` occurs in two entries of `s`.
pub open spec fn repeated_key<K, V>(s: Seq<(K, V)>, k: K) -> bool {
    exists|i: int, j: int|
        0 <= i < j < s.len() && (#[trigger] s[i]).0 == k && (#[trigger] s[j]).0 == k
}

/// The value stored under the key `k`, if there is one.
pub open spec fn lookup<K, V>(s: Seq<(K, V)>, k: K) -> Option<V> {
    if has_key(s, k) {
        Some(s[index_of_key(s, k)].1)
    } else {
        None
    }
}

/// The entries after a lookup of `k` that promotes: the entry with that key,
/// if there is one, has moved to the front.
pub open spec fn touch<K, V>(s: Seq<(K, V)>, k: K) -> Seq<(K, V)> {
    if has_key(s, k) {
        promote(s, index_of_key(s, k))
    } else {
        s
    }
}

/// The entries after the entry with the key `k` is removed, if there is one.
pub open spec fn take_out<K, V>(s: Seq<(K, V)>, k: K) -> Seq<(K, V)> {
    if has_key(s, k) {
        s.remove(index_of_key(s, k))
    } else {
        s
    }
}

/// The entries after `(k, v)` is inserted into a cache of capacity `cap`.
///
/// With no capacity nothing changes. A key that is present keeps its entry,
/// which gets the new value and moves to the front. Otherwise the new entry
/// goes to the front, and the last entry leaves if the cache was full.
pub open spec fn put<K, V>(s: Seq<(K, V)>, cap: nat, k: K, v: V) -> Seq<(K, V)> {
    if cap == 0 {
        s
    } else if has_key(s, k) {
        seq![(k, v)] + s.remove(index_of_key(s, k))
    } else if s.len() >= cap {
        seq![(k, v)] + s.drop_last()
    } else {
        seq![(k, v)] + s
    }
}

/// What inserting `(k, v)` into a cache of capacity `cap` hands back: the old
/// value of a key that was present, or the entry that had to leave.
pub open spec fn put_replaced<K, V>(s: Seq<(K, V)>, cap: nat, k: K, v: V) -> Option<
    InsertReplaced<K, V>,
> {
    if cap == 0 {
        None
    } else if has_key(s, k) {
        Some(InsertReplaced::OldValue(s[index_of_key(s, k)].1))
    } else if s.len() >= cap {
        Some(InsertReplaced::LruEvicted(s.last().0, s.last().1))
    } else {
        None
    }
}

/// In a sequence without repeated keys, a key is found at one position only.
pub proof fn lemma_index_of_key<K, V>(s: Seq<(K, V)>, k: K, i: int)
    requires
        distinct_keys(s),
        0 <= i < s.len(),
        s[i].0 == k,
    ensures
        has_key(s, k),
        index_of_key(s, k) == i,
{
    let j = index_of_key(s, k);
    assert(0 <= j < s.len() && s[j].0 == k);
    if j != i {
        if j < i {
            assert(s[j].0 != s[i].0);
        } else {
            assert(s[i].0 != s[j].0);
        }
    }
}

/// Whether `t` lists keys of `s` only, in the order in which `s` lists them.
pub open spec fn same_order<K, V>(s: Seq<(K, V)>, t: Seq<(K, V)>) -> bool {
    forall|a: K, b: K|
        #![trigger has_key(t, a), has_key(t, b)]
        has_key(t, a) && has_key(t, b) ==> has_key(s, a) && has_key(s, b) && ((index_of_key(t, a)
            < index_of_key(t, b)) == (index_of_key(s, a) < index_of_key(s, b)))
}

/// A sequence picked out of `s` by a rising map of positions has no
/// repeated key, holds each of its keys with the value that `s` holds, and
/// lists them in the order of `s`.
proof fn lemma_thinned<K, V>(s: Seq<(K, V)>, rest: Seq<(K, V)>, g: spec_fn(int) -> int)
    requires
        distinct_keys(s),
        forall|i: int| 0 <= i < rest.len() ==> 0 <= #[trigger] g(i) < s.len() && rest[i] == s[g(i)],
        forall|i: int, j: int| 0 <= i < j < rest.len() ==> #[trigger] g(i) < #[trigger] g(j),
    ensures
        distinct_keys(rest),
        forall|a: K|
            #![trigger has_key(rest, a)]
            has_key(rest, a) ==> has_key(s, a) && lookup(rest, a) == lookup(s, a) && g(
                index_of_key(rest, a),
            ) == index_of_key(s, a),
        same_order(s, rest),
{
    assert forall|i: int, j: int| 0 <= i < j < rest.len() implies (#[trigger] rest[i]).0 != (
    #[trigger] rest[j]).0 by {
        assert(g(i) < g(j));
        assert(s[g(i)].0 != s[g(j)].0);
    }
    assert forall|a: K| #![trigger has_key(rest, a)] has_key(rest, a) implies has_key(s, a)
        && lookup(rest, a) == lookup(s, a) && g(index_of_key(rest, a)) == index_of_key(s, a) by {
        let i = index_of_key(rest, a);
        assert(rest[i] == s[g(i)]);
        lemma_index_of_key(s, a, g(i));
    }
    assert forall|a: K, b: K|
        #![trigger has_key(rest, a), has_key(rest, b)]
        has_key(rest, a) && has_key(rest, b) implies has_key(s, a) && has_key(s, b) && ((
        index_of_key(rest, a) < index_of_key(rest, b)) == (index_of_key(s, a) < index_of_key(
        s,
        b,
    ))) by {
        let i = index_of_key(rest, a);
        let j = index_of_key(rest, b);
        assert(g(i) == index_of_key(s, a));
        assert(g(j) == index_of_key(s, b));
        if i < j {
            assert(g(i) < g(j));
        } else if j < i {
            assert(g(j) < g(i));
        }
    }
}

/// A new key put before a sequence without repeated keys: the key is found
/// with its value, and behind it stands what stood there.
proof fn lemma_fronted<K, V>(rest: Seq<(K, V)>, k: K, v: V)
    requires
        distinct_keys(rest),
        !has_key(rest, k),
    ensures
        distinct_keys(seq![(k, v)] + rest),
        lookup(seq![(k, v)] + rest, k) == Some(v),
        (seq![(k, v)] + rest).skip(1) == rest,
        forall|a: K|
            #![trigger has_key(seq![(k, v)] + rest, a)]
            a != k ==> has_key(seq![(k, v)] + rest, a) == has_key(rest, a) && lookup(
                seq![(k, v)] + rest,
                a,
            ) == lookup(rest, a),
{
    let t = seq![(k, v)] + rest;
    assert(t.skip(1) =~= rest);
    assert forall|i: int, j: int| 0 <= i < j < t.len() implies (#[trigger] t[i]).0 != (
    #[trigger] t[j]).0 by {
        assert(t[j] == rest[j - 1]);
        if i == 0 {
            assert(rest[j - 1].0 != k);
        } else {
            assert(t[i] == rest[i - 1]);
        }
    }
    assert(t[0].0 == k);
    lemma_index_of_key(t, k, 0);
    assert forall|a: K| #![trigger has_key(t, a)] a != k implies has_key(t, a) == has_key(
        rest,
        a,
    ) && lookup(t, a) == lookup(rest, a) by {
        if has_key(t, a) {
            let i = index_of_key(t, a);
            assert(t[i] == rest[i - 1]);
            lemma_index_of_key(rest, a, i - 1);
        }
        if has_key(rest, a) {
            let i = index_of_key(rest, a);
            assert(t[i + 1] == rest[i]);
            lemma_index_of_key(t, a, i + 1);
        }
    }
}

/// Removing the entry of a key: the key is gone, every other key keeps its
/// value, and the entries keep their order.
pub proof fn lemma_take_out<K, V>(s: Seq<(K, V)>, k: K)
    requires
        distinct_keys(s),
    ensures
        distinct_keys(take_out(s, k)),
        !has_key(take_out(s, k), k),
        take_out(s, k).len() == (if has_key(s, k) {
            s.len() - 1
        } else {
            s.len() as int
        }),
        forall|a: K|
            #![trigger has_key(take_out(s, k), a)]
            a != k ==> has_key(take_out(s, k), a) == has_key(s, a) && lookup(take_out(s, k), a)
                == lookup(s, a),
        same_order(s, take_out(s, k)),
{
    let t = take_out(s, k);
    if has_key(s, k) {
        let p = index_of_key(s, k);
        let g = |i: int|
            if i < p {
                i
            } else {
                i + 1
            };
        lemma_thinned(s, t, g);
        if has_key(t, k) {
            let i = index_of_key(t, k);
            assert(t[i] == s[g(i)]);
            lemma_index_of_key(s, k, g(i));
        }
        assert forall|a: K| #![trigger has_key(t, a)] a != k implies has_key(t, a) == has_key(
            s,
            a,
        ) && lookup(t, a) == lookup(s, a) by {
            if has_key(s, a) {
                let i = index_of_key(s, a);
                let j = if i < p {
                    i
                } else {
                    i - 1
                };
                assert(t[j] == s[i]);
                lemma_index_of_key(t, a, j);
            }
        }
    } else {
        lemma_thinned(s, t, |i: int| i);
    }
}

/// A lookup that promotes moves the entry of a key that is present to the
/// front and changes nothing else: every key keeps its value, and the other
/// entries keep their order.
pub proof fn lemma_touch<K, V>(s: Seq<(K, V)>, k: K)
    requires
        distinct_keys(s),
    ensures
        distinct_keys(touch(s, k)),
        touch(s, k).len() == s.len(),
        has_key(s, k) ==> touch(s, k).first() == (k, lookup(s, k).unwrap()) && touch(s, k).skip(1)
            == take_out(s, k),
        !has_key(s, k) ==> touch(s, k) == s,
        forall|a: K|
            #![trigger has_key(touch(s, k), a)]
            has_key(touch(s, k), a) == has_key(s, a) && lookup(touch(s, k), a) == lookup(s, a),
{
    if has_key(s, k) {
        let p = index_of_key(s, k);
        let rest = take_out(s, k);
        let v = s[p].1;
        lemma_take_out(s, k);
        lemma_fronted(rest, k, v);
        assert(touch(s, k) =~= seq![(k, v)] + rest);
        assert forall|a: K| #![trigger has_key(touch(s, k), a)] has_key(touch(s, k), a)
            == has_key(s, a) && lookup(touch(s, k), a) == lookup(s, a) by {
            if a != k {
                assert(has_key(touch(s, k), a) == has_key(rest, a));
                assert(has_key(rest, a) == has_key(s, a));
            }
        }
    }
}

/// After an insertion into a cache with room for one entry at least, the
/// key is found with the value that was inserted, at the front; every other
/// key that is still present keeps its value, and the other entries keep
/// their order. Only the last entry of a full cache may have left, and only
/// for a key that was new.
pub proof fn lemma_put<K, V>(s: Seq<(K, V)>, cap: nat, k: K, v: V)
    requires
        distinct_keys(s),
        s.len() <= cap,
        cap > 0,
    ensures
        distinct_keys(put(s, cap, k, v)),
        put(s, cap, k, v).len() <= cap,
        put(s, cap, k, v).first() == (k, v),
        lookup(put(s, cap, k, v), k) == Some(v),
        forall|a: K|
            #![trigger has_key(put(s, cap, k, v), a)]
            a != k && has_key(put(s, cap, k, v), a) ==> lookup(put(s, cap, k, v), a) == lookup(
                s,
                a,
            ),
        forall|a: K|
            #![trigger has_key(put(s, cap, k, v), a)]
            a != k && has_key(s, a) && !(s.len() == cap && !has_key(s, k) && a == s.last().0)
                ==> has_key(put(s, cap, k, v), a),
        same_order(s, put(s, cap, k, v).skip(1)),
{
    let t = put(s, cap, k, v);
    if has_key(s, k) {
        let rest = take_out(s, k);
        lemma_take_out(s, k);
        lemma_fronted(rest, k, v);
        assert(t =~= seq![(k, v)] + rest);
        assert forall|a: K| #![trigger has_key(t, a)] a != k && has_key(t, a) implies lookup(
            t,
            a,
        ) == lookup(s, a) by {
            assert(has_key(rest, a));
        }
        assert forall|a: K| #![trigger has_key(t, a)] a != k && has_key(s, a) implies has_key(
            t,
            a,
        ) by {
            assert(has_key(rest, a) == has_key(s, a));
        }
    } else if s.len() >= cap {
        let rest = s.drop_last();
        lemma_thinned(s, rest, |i: int| i);
        if has_key(rest, k) {
            assert(has_key(s, k));
        }
        lemma_fronted(rest, k, v);
        assert(t =~= seq![(k, v)] + rest);
        assert forall|a: K| #![trigger has_key(t, a)] a != k && has_key(t, a) implies lookup(
            t,
            a,
        ) == lookup(s, a) by {
            assert(has_key(rest, a));
        }
        assert forall|a: K|
            #![trigger has_key(t, a)]
            a != k && has_key(s, a) && a != s.last().0 implies has_key(t, a) by {
            let i = index_of_key(s, a);
            assert(rest[i] == s[i]);
            lemma_index_of_key(rest, a, i);
            assert(has_key(t, a) == has_key(rest, a));
        }
    } else {
        lemma_thinned(s, s, |i: int| i);
        lemma_fronted(s, k, v);
        assert(t =~= seq![(k, v)] + s);
        assert forall|a: K| #![trigger has_key(t, a)] a != k && has_key(s, a) implies has_key(
            t,
            a,
        ) by {
            assert(has_key(t, a) == has_key(s, a));
        }
    }
}

/// The entries after the pairs of `items` are inserted one after another
/// into a cache of capacity `cap` that holds the entries `s`.
pub open spec fn put_all<K, V>(s: Seq<(K, V)>, cap: nat, items: Seq<(K, V)>) -> Seq<(K, V)>
    decreases items.len(),
{
    if items.len() == 0 {
        s
    } else {
        put(put_all(s, cap, items.drop_last()), cap, items.last().0, items.last().1)
    }
}

/// The pairs of `items` from the last to the first, each key with the pair
/// in which it occurs last and no other.
pub open spec fn latest_first<K, V>(items: Seq<(K, V)>) -> Seq<(K, V)>
    decreases items.len(),
{
    if items.len() == 0 {
        Seq::empty()
    } else {
        seq![items.last()] + take_out(latest_first(items.drop_last()), items.last().0)
    }
}

/// The lesser of two numbers.
pub open spec fn lesser(a: int, b: int) -> int {
    if a <= b {
        a
    } else {
        b
    }
}

/// After any sequence of insertions into an empty cache with room for one
/// entry at least, the cache holds the keys that were inserted last, as
/// many different ones as it has room for, each with the value given to it
/// last, the key inserted last at the front: what left the cache is what
/// had gone longest without an insertion.
pub proof fn lemma_put_all<K, V>(cap: nat, items: Seq<(K, V)>)
    requires
        cap > 0,
    ensures
        distinct_keys(latest_first(items)),
        put_all(Seq::empty(), cap, items) == latest_first(items).take(
            lesser(cap as int, latest_first(items).len() as int),
        ),
    decreases items.len(),
{
    if items.len() == 0 {
        assert(latest_first(items).take(0) =~= Seq::<(K, V)>::empty());
    } else {
        let init = items.drop_last();
        let k = items.last().0;
        let v = items.last().1;
        lemma_put_all(cap, init);
        let d = latest_first(init);
        let m = lesser(cap as int, d.len() as int);
        let s = put_all(Seq::empty(), cap, init);
        assert(s == d.take(m));
        let rest = take_out(d, k);
        let d2 = latest_first(items);
        assert(d2 == seq![(k, v)] + rest);
        lemma_take_out(d, k);
        lemma_fronted(rest, k, v);
        let m2 = lesser(cap as int, d2.len() as int);
        let t = put(s, cap, k, v);
        assert(put_all(Seq::empty(), cap, items) == t);
        if has_key(s, k) {
            let p = index_of_key(s, k);
            assert(s[p] == d[p]);
            lemma_index_of_key(d, k, p);
            assert(rest == d.remove(p));
            assert(t =~= d2.take(m2));
        } else if has_key(d, k) {
            let p = index_of_key(d, k);
            if p < m {
                assert(s[p] == d[p]);
                assert(has_key(s, k));
            }
            assert(rest == d.remove(p));
            assert(t =~= d2.take(m2));
        } else {
            assert(rest == d);
            if s.len() >= cap {
                assert(t =~= d2.take(m2));
            } else {
                assert(s =~= d);
                assert(t =~= d2.take(m2));
            }
        }
    }
}

} // verus!
