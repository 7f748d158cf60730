use const_lru::{ConstLru, Entry, InsertReplaced};

fn keys_by_recency<const CAP: usize>(c: &ConstLru<u16, u32, CAP, u16>) -> Vec<u16> {
    let mut out: Vec<u16> = Vec::new();
    let mut iter = c.iter();
    while let Some((k, _v)) = iter.next() {
        out.push(*k);
    }
    out
}

fn keys_by_recency_backwards<const CAP: usize>(c: &ConstLru<u16, u32, CAP, u16>) -> Vec<u16> {
    let mut out: Vec<u16> = Vec::new();
    let mut iter = c.iter();
    while let Some((k, _v)) = iter.next_back() {
        out.push(*k);
    }
    out
}

fn keys_by_key<const CAP: usize>(c: &ConstLru<u16, u32, CAP, u16>) -> Vec<u16> {
    let mut out: Vec<u16> = Vec::new();
    let mut iter = c.iter_key_order();
    while let Some((k, _v)) = iter.next() {
        out.push(*k);
    }
    out
}

/// A sequence of numbers that looks shuffled.
fn scrambled(n: usize, modulus: u16) -> Vec<u16> {
    let mut out: Vec<u16> = Vec::new();
    let mut x: u32 = 12345;
    for _ in 0..n {
        x = x.wrapping_mul(1103515245).wrapping_add(12345) % 2147483648;
        out.push(((x >> 8) % (modulus as u32)) as u16);
    }
    out
}

#[test]
fn length_stays_within_capacity() {
    let mut c: ConstLru<u16, u32, 5, u16> = ConstLru::new();
    for (step, k) in scrambled(400, 9).into_iter().enumerate() {
        if step % 3 == 2 {
            c.remove(&k);
        } else {
            c.insert(k, step as u32);
        }
        assert!(c.len() <= 5);
        assert_eq!(c.is_full(), c.len() == 5);
        assert_eq!(c.is_empty(), c.len() == 0);
    }
}

#[test]
fn walks_in_both_directions_agree_with_the_length() {
    let mut c: ConstLru<u16, u32, 6, u16> = ConstLru::new();
    for (step, k) in scrambled(400, 11).into_iter().enumerate() {
        match step % 4 {
            0 => {
                c.remove(&k);
            }
            1 => {
                c.get(&k);
            }
            _ => {
                c.insert(k, step as u32);
            }
        }
        let forward = keys_by_recency(&c);
        let mut backward = keys_by_recency_backwards(&c);
        backward.reverse();
        assert_eq!(forward.len(), c.len() as usize);
        assert_eq!(forward, backward);
    }
}

#[test]
fn order_index_lists_the_same_keys_ascending() {
    let mut c: ConstLru<u16, u32, 6, u16> = ConstLru::new();
    for (step, k) in scrambled(400, 13).into_iter().enumerate() {
        if step % 5 == 4 {
            c.remove(&k);
        } else {
            c.insert(k, step as u32);
        }
        let mut expected = keys_by_recency(&c);
        expected.sort();
        let sorted = keys_by_key(&c);
        assert_eq!(sorted, expected);
        for w in sorted.windows(2) {
            assert!(w[0] < w[1]);
        }
    }
}

#[test]
fn inserted_value_is_found_and_others_keep_their_order() {
    let mut c: ConstLru<u16, u32, 4, u16> = ConstLru::new();
    c.insert(10, 1);
    c.insert(20, 2);
    c.insert(30, 3);
    assert_eq!(c.insert(40, 4), None);
    assert_eq!(c.get_untouched(&40), Some(&4));
    assert_eq!(keys_by_recency(&c), vec![40, 30, 20, 10]);
    assert_eq!(c.insert(20, 22), Some(InsertReplaced::OldValue(2)));
    assert_eq!(c.get_untouched(&20), Some(&22));
    assert_eq!(keys_by_recency(&c), vec![20, 40, 30, 10]);
    assert_eq!(c.insert(50, 5), Some(InsertReplaced::LruEvicted(10, 1)));
    assert_eq!(c.get_untouched(&50), Some(&5));
    assert_eq!(keys_by_recency(&c), vec![50, 20, 40, 30]);
}

#[test]
fn only_the_latest_distinct_keys_remain() {
    let mut c: ConstLru<u16, u32, 4, u16> = ConstLru::new();
    let inserted: [u16; 10] = [1, 2, 3, 1, 4, 5, 2, 6, 6, 3];
    let mut evicted: Vec<u16> = Vec::new();
    for (i, k) in inserted.into_iter().enumerate() {
        match c.insert(k, i as u32) {
            Some(InsertReplaced::LruEvicted(old_k, _)) => evicted.push(old_k),
            _ => {}
        }
    }
    assert_eq!(keys_by_recency(&c), vec![3, 6, 2, 5]);
    assert_eq!(evicted, vec![2, 3, 1, 4]);
    assert_eq!(c.get_untouched(&3), Some(&9));
    assert_eq!(c.get_untouched(&6), Some(&8));
    assert_eq!(c.get_untouched(&2), Some(&6));
    assert_eq!(c.get_untouched(&5), Some(&5));
    assert_eq!(c.get_untouched(&1), None);
    assert_eq!(c.get_untouched(&4), None);
}

#[test]
fn fewer_insertions_than_capacity_all_remain() {
    let mut c: ConstLru<u16, u32, 8, u16> = ConstLru::new();
    for k in [7u16, 3, 9] {
        assert_eq!(c.insert(k, 0), None);
    }
    assert_eq!(keys_by_recency(&c), vec![9, 3, 7]);
    assert_eq!(c.len(), 3);
}

#[test]
fn get_promotes_and_get_untouched_does_not() {
    let mut c: ConstLru<u16, u32, 4, u16> = ConstLru::new();
    for k in [1u16, 2, 3, 4] {
        c.insert(k, k as u32);
    }
    assert_eq!(c.get_untouched(&1), Some(&1));
    assert_eq!(keys_by_recency(&c), vec![4, 3, 2, 1]);
    assert_eq!(c.get(&1), Some(&1));
    assert_eq!(keys_by_recency(&c), vec![1, 4, 3, 2]);
    assert_eq!(c.get(&7), None);
    assert_eq!(keys_by_recency(&c), vec![1, 4, 3, 2]);
    assert_eq!(c.get(&1), Some(&1));
    assert_eq!(keys_by_recency(&c), vec![1, 4, 3, 2]);
}

#[test]
fn array_round_trip() {
    let entries: [(u16, u32); 5] = [(50, 5), (10, 1), (40, 4), (20, 2), (30, 3)];
    let c: ConstLru<u16, u32, 5, u16> = ConstLru::try_from(entries).unwrap();
    let mut got: Vec<(u16, u32)> = Vec::new();
    let mut iter = c.iter();
    while let Some((k, v)) = iter.next() {
        got.push((*k, *v));
    }
    assert_eq!(got, entries.to_vec());
    assert_eq!(keys_by_key(&c), vec![10, 20, 30, 40, 50]);
    let mut taken: Vec<(u16, u32)> = Vec::new();
    let mut iter = c.into_iter();
    while let Some(kv) = iter.next() {
        taken.push(kv);
    }
    assert_eq!(taken, entries.to_vec());
}

#[test]
fn entry_inserts_only_where_vacant() {
    let mut c: ConstLru<u16, u32, 2, u16> = ConstLru::new();
    assert_eq!(*c.entry(1).or_insert(10), 10);
    assert_eq!(*c.entry(1).or_insert(11), 10);
    assert_eq!(*c.entry(2).or_insert_with(|| 20), 20);
    assert_eq!(*c.entry(2).or_insert_with(|| 21), 20);
    assert_eq!(keys_by_recency(&c), vec![2, 1]);
    assert_eq!(*c.entry(3).or_insert_with_key(|k| (*k as u32) * 10), 30);
    assert_eq!(keys_by_recency(&c), vec![3, 2]);
    assert_eq!(*c.entry(4).or_default(), 0);
    assert_eq!(*c.entry(3).or_default(), 30);
    assert_eq!(keys_by_recency(&c), vec![3, 4]);
    *c.entry(4).or_insert(0) += 5;
    assert_eq!(c.get_untouched(&4), Some(&5));
}

#[test]
fn entry_handles() {
    let mut c: ConstLru<u16, u32, 3, u16> = ConstLru::new();
    c.insert(1, 10);
    c.insert(2, 20);
    {
        let e = c.entry(5);
        assert_eq!(*e.key(), 5);
        let Entry::Vacant(v) = e else { panic!("not vacant") };
        assert_eq!(*v.key(), 5);
        assert_eq!(v.into_key(), 5);
    }
    assert_eq!(keys_by_recency(&c), vec![2, 1]);
    {
        let e = c.entry(1);
        assert_eq!(*e.key(), 1);
        let Entry::Occupied(o) = e else { panic!("not occupied") };
        assert_eq!(*o.key(), 1);
        *o.into_mut_untouched() = 11;
    }
    assert_eq!(keys_by_recency(&c), vec![2, 1]);
    {
        let Entry::Occupied(o) = c.entry(1) else { panic!("not occupied") };
        *o.into_mut() = 12;
    }
    assert_eq!(keys_by_recency(&c), vec![1, 2]);
    {
        let Entry::Occupied(o) = c.entry(2) else { panic!("not occupied") };
        assert_eq!(o.remove_entry(), (2, 20));
    }
    assert_eq!(keys_by_recency(&c), vec![1]);
    assert_eq!(c.get_untouched(&1), Some(&12));
}
