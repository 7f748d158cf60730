use const_lru::ConstLru;

// ~400 MB
type BigConstLru = ConstLru<usize, usize, 10_000_000>;

fn boxed_big_const_lru() -> Box<BigConstLru> {
    let mut c: Box<BigConstLru> = Box::new(ConstLru::new());
    ConstLru::init_at_alloc(&mut *c);
    c
}

#[test]
fn heap_alloc_doesnt_stack_overflow() {
    let mut c = boxed_big_const_lru();
    assert!(c.insert(1, 2).is_none());
}

#[test]
fn clear_doesnt_stack_overflow() {
    let mut c = boxed_big_const_lru();
    c.clear();
    assert!(c.insert(1, 2).is_none());
}

#[test]
fn clone_to_alloc_doesnt_stack_overflow() {
    let c = boxed_big_const_lru();
    let mut cloned: Box<BigConstLru> = Box::new(ConstLru::new());
    c.clone_to_alloc(&mut *cloned);
    assert!(cloned.insert(1, 2).is_none());
}
