use const_lru::{ConstLru, InsertReplaced, SlotIndex};

fn mru_not_empty<K: Ord, V, const CAP: usize, I: SlotIndex>(
    const_lru: &ConstLru<K, V, CAP, I>,
) -> (&K, &V) {
    const_lru.iter().next().unwrap()
}

fn lru_not_empty<K: Ord, V, const CAP: usize, I: SlotIndex>(
    const_lru: &ConstLru<K, V, CAP, I>,
) -> (&K, &V) {
    const_lru.iter().next_back().unwrap()
}

#[test]
fn inserted_is_mru() {
    let entries: [(u8, u16); 3] = [(1, 2), (3, 4), (5, 6)];
    let mut c: ConstLru<u8, u16, 3, u8> = ConstLru::new();
    for (k, v) in entries {
        c.insert(k, v);
        assert_eq!(mru_not_empty(&c), (&k, &v));
        assert_eq!(lru_not_empty(&c), (&entries[0].0, &entries[0].1));
    }
}

#[test]
fn evict_bs_2_replace_bs_0() {
    let entry_evict: (u32, u64) = (5, 6);
    let entries: [(u32, u64); 2] = [(1, 2), (3, 4)];
    let entry_replace: (u32, u64) = (0, 7);

    let mut c: ConstLru<u32, u64, 3, u8> = ConstLru::new();
    c.insert(entry_evict.0, entry_evict.1);
    for (k, v) in entries {
        c.insert(k, v);
    }
    assert_eq!(
        c.insert(entry_replace.0, entry_replace.1).unwrap(),
        InsertReplaced::LruEvicted(entry_evict.0, entry_evict.1)
    );
    // make sure all get() works properly
    for (k, v) in entries {
        assert_eq!(*c.get(&k).unwrap(), v);
    }
    assert_eq!(*c.get(&entry_replace.0).unwrap(), entry_replace.1);
}

#[test]
fn evict_bs_0_replace_bs_2() {
    let entry_evict: (u32, u64) = (0, 7);
    let entries: [(u32, u64); 2] = [(1, 2), (3, 4)];
    let entry_replace: (u32, u64) = (5, 6);

    let mut c: ConstLru<u32, u64, 3, u8> = ConstLru::new();
    c.insert(entry_evict.0, entry_evict.1);
    for (k, v) in entries {
        c.insert(k, v);
    }
    assert_eq!(
        c.insert(entry_replace.0, entry_replace.1).unwrap(),
        InsertReplaced::LruEvicted(entry_evict.0, entry_evict.1)
    );
    // make sure all get() works properly
    for (k, v) in entries {
        assert_eq!(*c.get(&k).unwrap(), v);
    }
    assert_eq!(*c.get(&entry_replace.0).unwrap(), entry_replace.1);
}

#[test]
fn evict_bs_1_replace_bs_1_replace_gt() {
    let entry_evict: (u32, u64) = (2, 3);
    let entries: [(u32, u64); 2] = [(1, 2), (4, 5)];
    let entry_replace: (u32, u64) = (3, 4);

    let mut c: ConstLru<u32, u64, 3, u8> = ConstLru::new();
    c.insert(entry_evict.0, entry_evict.1);
    for (k, v) in entries {
        c.insert(k, v);
    }
    assert_eq!(
        c.insert(entry_replace.0, entry_replace.1).unwrap(),
        InsertReplaced::LruEvicted(entry_evict.0, entry_evict.1)
    );
    // make sure all get() works properly
    for (k, v) in entries {
        assert_eq!(*c.get(&k).unwrap(), v);
    }
    assert_eq!(c.len(), 3);
    assert_eq!(*c.get(&entry_replace.0).unwrap(), entry_replace.1);
}

#[test]
fn evict_bs_1_replace_bs_1_replace_lt() {
    let entry_evict: (u32, u64) = (3, 4);
    let entries: [(u32, u64); 2] = [(1, 2), (4, 5)];
    let entry_replace: (u32, u64) = (2, 3);

    let mut c: ConstLru<u32, u64, 3, u8> = ConstLru::new();
    c.insert(entry_evict.0, entry_evict.1);
    for (k, v) in entries {
        c.insert(k, v);
    }
    assert_eq!(
        c.insert(entry_replace.0, entry_replace.1).unwrap(),
        InsertReplaced::LruEvicted(entry_evict.0, entry_evict.1)
    );
    // make sure all get() works properly
    for (k, v) in entries {
        assert_eq!(*c.get(&k).unwrap(), v);
    }
    assert_eq!(c.len(), 3);
    assert_eq!(*c.get(&entry_replace.0).unwrap(), entry_replace.1);
}

#[test]
fn replace_old_val_full() {
    let entry_old: (u32, u64) = (1, 2);
    let entries: [(u32, u64); 2] = [(3, 4), (5, 6)];
    let val_replace: u64 = 3;
    let mut c: ConstLru<u32, u64, 3, u8> = ConstLru::new();
    c.insert(entry_old.0, entry_old.1);
    for (k, v) in entries {
        c.insert(k, v);
    }
    assert_eq!(
        c.insert(entry_old.0, val_replace).unwrap(),
        InsertReplaced::OldValue(entry_old.1)
    );
    assert_eq!(*c.get(&entry_old.0).unwrap(), val_replace);
}

#[test]
fn replace_old_val_not_full() {
    let entry_old: (u32, u64) = (1, 2);
    let val_replace: u64 = 3;
    let mut c: ConstLru<u32, u64, 3, u8> = ConstLru::new();
    c.insert(entry_old.0, entry_old.1);
    assert_eq!(
        c.insert(entry_old.0, val_replace).unwrap(),
        InsertReplaced::OldValue(entry_old.1)
    );
    assert_eq!(*c.get(&entry_old.0).unwrap(), val_replace);
}

#[test]
fn remove_empty() {
    let mut c: ConstLru<u32, u64, 3, u8> = ConstLru::new();
    assert!(c.remove(&1).is_none());
}

#[test]
fn remove_only() {
    let entry: (u32, u64) = (1, 2);
    let mut c: ConstLru<u32, u64, 3, u8> = ConstLru::new();
    c.insert(entry.0, entry.1);
    assert_eq!(c.remove(&entry.0).unwrap(), entry.1);
    assert!(c.get(&entry.0).is_none());
    assert!(c.is_empty());
}

#[test]
fn remove_not_full() {
    let entry: (u32, u64) = (1, 2);
    let other: (u32, u64) = (3, 4);
    let mut c: ConstLru<u32, u64, 3, u8> = ConstLru::new();
    c.insert(entry.0, entry.1);
    c.insert(other.0, other.1);
    assert_eq!(c.remove(&entry.0).unwrap(), entry.1);
    assert!(c.get(&entry.0).is_none());
    assert_eq!(*c.get(&other.0).unwrap(), other.1);
}

#[test]
fn remove_full() {
    let entry: (u32, u64) = (1, 2);
    let others: [(u32, u64); 2] = [(3, 4), (5, 6)];
    let mut c: ConstLru<u32, u64, 3, u8> = ConstLru::new();
    c.insert(entry.0, entry.1);
    for (k, v) in others {
        c.insert(k, v);
    }
    assert_eq!(c.remove(&entry.0).unwrap(), entry.1);
    assert!(c.get(&entry.0).is_none());
    for (k, v) in others {
        assert_eq!(*c.get(&k).unwrap(), v);
    }
}

#[test]
fn fill_shuffle_empty_fill() {
    let entries: [(u32, u64); 3] = [(1, 2), (5, 6), (3, 4)];

    // head -> 2 <-> 1 <-> 0 <- tail
    let mut c: ConstLru<u32, u64, 3, u8> = ConstLru::new();
    for (k, v) in entries {
        c.insert(k, v);
    }

    // head -> 0 <-> 1 <-> 2 <- tail
    assert_eq!(c.get(&entries[1].0).unwrap(), &entries[1].1);
    assert_eq!(c.get(&entries[0].0).unwrap(), &entries[0].1);
    let mut iter = c.iter();
    assert_eq!(iter.next().unwrap(), (&entries[0].0, &entries[0].1));
    assert_eq!(iter.next().unwrap(), (&entries[1].0, &entries[1].1));
    assert_eq!(iter.next().unwrap(), (&entries[2].0, &entries[2].1));
    assert!(iter.next().is_none());

    // head -> 0 <-> 2 <- tail
    assert_eq!(c.remove(&entries[1].0).unwrap(), entries[1].1);
    let mut iter = c.iter();
    assert_eq!(iter.next().unwrap(), (&entries[0].0, &entries[0].1));
    assert_eq!(iter.next().unwrap(), (&entries[2].0, &entries[2].1));
    assert!(iter.next().is_none());

    // head -> 2 <- tail
    assert_eq!(c.remove(&entries[0].0).unwrap(), entries[0].1);
    let mut iter = c.iter();
    assert_eq!(iter.next().unwrap(), (&entries[2].0, &entries[2].1));
    assert!(iter.next().is_none());

    // empty
    assert_eq!(c.remove(&entries[2].0).unwrap(), entries[2].1);
    assert!(c.is_empty());
    let mut iter = c.iter();
    assert!(iter.next().is_none());

    // head -> 2 <- tail
    assert!(c.insert(entries[2].0, entries[2].1).is_none());
    let mut iter = c.iter();
    assert_eq!(iter.next().unwrap(), (&entries[2].0, &entries[2].1));
    assert!(iter.next().is_none());

    // head -> 1 <-> 2 <- tail
    assert!(c.insert(entries[1].0, entries[1].1).is_none());
    let mut iter = c.iter();
    assert_eq!(iter.next().unwrap(), (&entries[1].0, &entries[1].1));
    assert_eq!(iter.next().unwrap(), (&entries[2].0, &entries[2].1));
    assert!(iter.next().is_none());

    // head -> 0 <-> 1 <-> 2 <- tail
    assert!(c.insert(entries[0].0, entries[0].1).is_none());
    let mut iter = c.iter();
    assert_eq!(iter.next().unwrap(), (&entries[0].0, &entries[0].1));
    assert_eq!(iter.next().unwrap(), (&entries[1].0, &entries[1].1));
    assert_eq!(iter.next().unwrap(), (&entries[2].0, &entries[2].1));
    assert!(iter.next().is_none());
}
