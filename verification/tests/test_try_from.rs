use const_lru::ConstLru;

#[test]
fn try_from_zero_cap() {
    let entries: [(u8, u16); 0] = [];
    let c: ConstLru<u8, u16, 0, u8> = ConstLru::try_from(entries).unwrap();
    assert!(c.is_empty());
    assert!(c.is_full());
}

#[test]
fn try_from_one_cap() {
    let entries: [(u8, u16); 1] = [(1, 2)];
    let mut c: ConstLru<u8, u16, 1, u8> = ConstLru::try_from(entries).unwrap();
    assert!(c.is_full());

    assert_eq!(*c.get(&entries[0].0).unwrap(), entries[0].1);

    let mut iter = c.iter();
    assert_eq!(iter.next().unwrap(), (&entries[0].0, &entries[0].1));
    assert!(iter.next().is_none());

    assert_eq!(c.remove(&entries[0].0).unwrap(), entries[0].1);

    assert!(c.is_empty());
}

#[test]
fn try_from_three_cap() {
    let entries: [(u8, u16); 3] = [(1, 2), (3, 4), (5, 6)];
    let mut c: ConstLru<u8, u16, 3, u8> = ConstLru::try_from(entries).unwrap();
    assert!(c.is_full());

    // check lru order
    let mut iter = c.iter();
    let mut i: usize = 0;
    while let Some(tup) = iter.next() {
        assert_eq!(tup, (&entries[i].0, &entries[i].1));
        i += 1;
    }
    assert_eq!(i, 3);

    // check get works
    for (k, v) in entries {
        assert_eq!(*c.get(&k).unwrap(), v);
    }

    // check remove works
    for (new_len, (k, v)) in entries.iter().enumerate().rev() {
        assert_eq!(c.remove(k).unwrap(), *v);
        assert_eq!(c.len(), u8::try_from(new_len).unwrap());
    }
    assert!(c.is_empty());
}
