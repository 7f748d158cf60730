use std::rc::Rc;

use const_lru::{ConstLru, DuplicateKeysError, InsertReplaced};

fn recency<const CAP: usize>(c: &ConstLru<u8, u64, CAP, u8>) -> Vec<(u8, u64)> {
    let mut out: Vec<(u8, u64)> = Vec::new();
    let mut iter = c.iter();
    while let Some((k, v)) = iter.next() {
        out.push((*k, *v));
    }
    out
}

fn by_key<const CAP: usize>(c: &ConstLru<u8, u64, CAP, u8>) -> Vec<(u8, u64)> {
    let mut out: Vec<(u8, u64)> = Vec::new();
    let mut iter = c.iter_key_order();
    while let Some((k, v)) = iter.next() {
        out.push((*k, *v));
    }
    out
}

#[test]
fn three_inserts_in_both_orders() {
    let mut c: ConstLru<u8, u64, 3, u8> = ConstLru::new();
    assert!(c.insert(5, 6).is_none());
    assert!(c.insert(1, 2).is_none());
    assert!(c.insert(3, 4).is_none());
    assert_eq!(recency(&c), vec![(3, 4), (1, 2), (5, 6)]);
    assert_eq!(by_key(&c), vec![(1, 2), (3, 4), (5, 6)]);
}

#[test]
fn capacity_one_evicts_the_only_entry() {
    let mut c: ConstLru<u8, u64, 1, u8> = ConstLru::new();
    assert_eq!(c.insert(1, 2), None);
    assert_eq!(c.insert(3, 4), Some(InsertReplaced::LruEvicted(1, 2)));
    assert_eq!(c.get(&1), None);
    assert_eq!(c.get(&3), Some(&4));
}

#[test]
fn get_promotes_and_spares_from_eviction() {
    let mut c: ConstLru<u8, u64, 3, u8> = ConstLru::new();
    c.insert(3, 4);
    c.insert(1, 2);
    c.insert(5, 6);
    assert_eq!(recency(&c), vec![(5, 6), (1, 2), (3, 4)]);
    assert_eq!(c.get(&1), Some(&2));
    assert_eq!(recency(&c), vec![(1, 2), (5, 6), (3, 4)]);
    assert_eq!(c.insert(0, 7), Some(InsertReplaced::LruEvicted(3, 4)));
    assert_eq!(recency(&c), vec![(0, 7), (1, 2), (5, 6)]);
    assert_eq!(by_key(&c), vec![(0, 7), (1, 2), (5, 6)]);
}

#[test]
fn eviction_reuses_the_rank_of_the_evicted() {
    let mut c: ConstLru<u8, u64, 3, u8> = ConstLru::new();
    c.insert(2, 3);
    c.insert(1, 2);
    c.insert(4, 5);
    assert_eq!(c.insert(3, 4), Some(InsertReplaced::LruEvicted(2, 3)));
    assert_eq!(by_key(&c), vec![(1, 2), (3, 4), (4, 5)]);
    assert_eq!(c.get(&1), Some(&2));
    assert_eq!(c.get(&3), Some(&4));
    assert_eq!(c.get(&4), Some(&5));
    assert_eq!(c.get(&2), None);
}

#[test]
fn duplicate_keys_are_refused() {
    let r: Result<ConstLru<u8, u64, 2, u8>, DuplicateKeysError<u8>> =
        ConstLru::try_from([(0, 1), (0, 2)]);
    assert_eq!(r.err(), Some(DuplicateKeysError(0)));
}

#[test]
fn duplicate_keys_leak_nothing() {
    let k: Rc<u8> = Rc::new(0);
    let v1: Rc<u16> = Rc::new(1);
    let v2: Rc<u16> = Rc::new(2);
    {
        let r: Result<ConstLru<Rc<u8>, Rc<u16>, 2, u8>, DuplicateKeysError<Rc<u8>>> =
            ConstLru::try_from([(k.clone(), v1.clone()), (k.clone(), v2.clone())]);
        assert!(r.is_err());
    }
    assert_eq!(Rc::strong_count(&k), 1);
    assert_eq!(Rc::strong_count(&v1), 1);
    assert_eq!(Rc::strong_count(&v2), 1);
}

#[test]
fn least_duplicate_key_is_reported() {
    let r: Result<ConstLru<u8, u64, 5, u8>, DuplicateKeysError<u8>> =
        ConstLru::try_from([(5, 0), (5, 1), (9, 2), (1, 3), (1, 4)]);
    assert_eq!(r.err(), Some(DuplicateKeysError(1)));
}

#[test]
fn consuming_iterator_dropped_midway() {
    let keys: [Rc<u8>; 3] = [Rc::new(1), Rc::new(2), Rc::new(3)];
    let values: [Rc<u16>; 3] = [Rc::new(10), Rc::new(20), Rc::new(30)];
    {
        let c: ConstLru<Rc<u8>, Rc<u16>, 3, u8> = ConstLru::try_from([
            (keys[0].clone(), values[0].clone()),
            (keys[1].clone(), values[1].clone()),
            (keys[2].clone(), values[2].clone()),
        ])
        .unwrap();
        let mut iter = c.into_iter();
        let first = iter.next().unwrap();
        assert_eq!(*first.0, 1);
        assert_eq!(*first.1, 10);
        drop(first);
        assert_eq!(Rc::strong_count(&keys[0]), 1);
        assert_eq!(Rc::strong_count(&values[0]), 1);
        assert_eq!(Rc::strong_count(&keys[1]), 2);
        assert_eq!(Rc::strong_count(&values[1]), 2);
        assert_eq!(Rc::strong_count(&keys[2]), 2);
        assert_eq!(Rc::strong_count(&values[2]), 2);
    }
    for i in 0..3 {
        assert_eq!(Rc::strong_count(&keys[i]), 1);
        assert_eq!(Rc::strong_count(&values[i]), 1);
    }
}

#[test]
fn consuming_iterator_from_both_ends() {
    let c: ConstLru<u8, u64, 4, u8> =
        ConstLru::try_from([(4, 40), (2, 20), (9, 90), (7, 70)]).unwrap();
    let mut iter = c.into_iter();
    assert_eq!(iter.size_hint(), (4, Some(4)));
    assert_eq!(iter.next_back(), Some((7, 70)));
    assert_eq!(iter.next(), Some((4, 40)));
    assert_eq!(iter.size_hint(), (2, Some(2)));
    assert_eq!(iter.next_back(), Some((9, 90)));
    assert_eq!(iter.next_back(), Some((2, 20)));
    assert_eq!(iter.size_hint(), (0, Some(0)));
    assert_eq!(iter.next_back(), None);
    assert_eq!(iter.next(), None);
}

#[test]
fn consuming_iterator_of_a_cache_with_room() {
    let mut c: ConstLru<u8, u64, 4, u8> = ConstLru::new();
    c.insert(1, 10);
    c.insert(2, 20);
    let mut iter = c.into_iter();
    assert_eq!(iter.next_back(), Some((1, 10)));
    assert_eq!(iter.next_back(), Some((2, 20)));
    assert_eq!(iter.next_back(), None);
}

#[test]
fn new_cache_is_empty() {
    let c: ConstLru<u8, u64, 3, u8> = ConstLru::new();
    assert!(c.is_empty());
    assert!(!c.is_full());
    assert_eq!(c.len(), 0);
    assert_eq!(c.cap(), 3);
    assert_eq!(recency(&c), vec![]);
}

#[test]
fn clear_empties_and_the_cache_can_be_filled_again() {
    let mut c: ConstLru<u8, u64, 3, u8> = ConstLru::new();
    c.insert(1, 1);
    c.insert(2, 2);
    c.insert(3, 3);
    c.clear();
    assert!(c.is_empty());
    assert_eq!(c.get(&1), None);
    assert_eq!(c.insert(7, 7), None);
    assert_eq!(c.insert(8, 8), None);
    assert_eq!(c.insert(9, 9), None);
    assert_eq!(c.insert(6, 6), Some(InsertReplaced::LruEvicted(7, 7)));
    assert_eq!(recency(&c), vec![(6, 6), (9, 9), (8, 8)]);
}

#[test]
fn removed_slots_are_used_again() {
    let mut c: ConstLru<u8, u64, 3, u8> = ConstLru::new();
    for round in 0u8..20 {
        let base: u8 = round * 3;
        assert_eq!(c.insert(base, 1), None);
        assert_eq!(c.insert(base + 1, 2), None);
        assert_eq!(c.insert(base + 2, 3), None);
        assert!(c.is_full());
        assert_eq!(c.remove(&(base + 1)), Some(2));
        assert_eq!(recency(&c), vec![(base + 2, 3), (base, 1)]);
        assert_eq!(c.remove(&(base + 2)), Some(3));
        assert_eq!(c.remove(&base), Some(1));
        assert!(c.is_empty());
    }
}

#[test]
fn untouched_lookups_keep_the_order() {
    let mut c: ConstLru<u8, u64, 3, u8> = ConstLru::new();
    c.insert(1, 10);
    c.insert(2, 20);
    c.insert(3, 30);
    assert_eq!(c.get_untouched(&1), Some(&10));
    assert_eq!(recency(&c), vec![(3, 30), (2, 20), (1, 10)]);
    *c.get_mut_untouched(&1).unwrap() = 11;
    assert_eq!(recency(&c), vec![(3, 30), (2, 20), (1, 11)]);
    assert_eq!(c.get_mut_untouched(&9), None);
    *c.get_mut(&2).unwrap() = 21;
    assert_eq!(recency(&c), vec![(2, 21), (3, 30), (1, 11)]);
    assert_eq!(c.get_mut(&9), None);
}

#[test]
fn clone_is_independent() {
    let mut c: ConstLru<u8, u64, 3, u8> = ConstLru::new();
    c.insert(1, 10);
    c.insert(2, 20);
    let mut d = c.clone();
    assert_eq!(recency(&d), vec![(2, 20), (1, 10)]);
    d.insert(3, 30);
    c.remove(&1);
    assert_eq!(recency(&c), vec![(2, 20)]);
    assert_eq!(recency(&d), vec![(3, 30), (2, 20), (1, 10)]);
    let mut e: ConstLru<u8, u64, 3, u8> = ConstLru::new();
    e.insert(9, 9);
    d.clone_to_alloc(&mut e);
    assert_eq!(recency(&e), vec![(3, 30), (2, 20), (1, 10)]);
    assert_eq!(by_key(&e), vec![(1, 10), (2, 20), (3, 30)]);
}

#[test]
fn size_hints() {
    let mut c: ConstLru<u8, u64, 3, u8> = ConstLru::new();
    c.insert(1, 10);
    c.insert(2, 20);
    assert_eq!(c.iter().size_hint(), (0, Some(3)));
    assert_eq!(c.iter_mut().size_hint(), (0, Some(3)));
    let mut it = c.iter_key_order();
    assert_eq!(it.size_hint(), (2, Some(2)));
    it.next();
    assert_eq!(it.size_hint(), (1, Some(1)));
    let mut it = c.iter_key_order_mut();
    assert_eq!(it.size_hint(), (2, Some(2)));
    it.next_back();
    assert_eq!(it.size_hint(), (1, Some(1)));
}
