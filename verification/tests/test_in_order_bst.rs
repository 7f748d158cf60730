use const_lru::{
    ConstLru, DoubleEndedInOrderTraverser, DoubleEndedIterCursors, InOrderTraversalState,
    InOrderTraverser, TreeLinks,
};

///       13B
///      /   \
///    8R     17R
///   / \     /  \
/// 1B  11B  15B 25B
///   \          / \
///    6R      22R  27R
///
/// keys = [1, 6, 8, 11, 13, 15, 17, 22, 25, 27]
fn tree_a() -> TreeLinks<u8> {
    TreeLinks {
        root: 4,
        parents: vec![2, 0, 4, 2, 10, 6, 4, 8, 6, 8],
        lefts: vec![10, 10, 0, 10, 2, 10, 5, 10, 7, 10],
        rights: vec![1, 10, 3, 10, 6, 10, 8, 10, 9, 10],
    }
}

///    7B
///   /  \
/// 3B    18R
///      /   \
///     10B   22B
///    /   \    \
///   8R   11R   26R
///
/// keys = [3, 7, 8, 10, 11, 18, 22, 26]
fn tree_b() -> TreeLinks<u8> {
    TreeLinks {
        root: 1,
        parents: vec![1, 8, 3, 5, 3, 1, 5, 6],
        lefts: vec![8, 0, 8, 2, 8, 3, 8, 8],
        rights: vec![8, 5, 8, 4, 8, 6, 7, 8],
    }
}

///       5B
///     /    \
///    2R     8B
///   /  \    / \
/// 1B    4B 7R  9R
///
/// keys = [1, 2, 4, 5, 7, 8, 9]
fn tree_c() -> TreeLinks<u8> {
    TreeLinks {
        root: 3,
        parents: vec![1, 3, 1, 7, 5, 3, 5],
        lefts: vec![7, 0, 7, 1, 7, 4, 7],
        rights: vec![7, 2, 7, 5, 7, 6, 7],
    }
}

/// A tree in which the slots are not in the order of the keys:
///
///     slot 2
///    /      \
/// slot 3   slot 0
///    \
///   slot 1
fn tree_d() -> TreeLinks<u16> {
    TreeLinks {
        root: 2,
        parents: vec![2, 3, 4, 2],
        lefts: vec![4, 4, 3, 4],
        rights: vec![4, 4, 0, 1],
    }
}

fn empty_tree() -> TreeLinks<u8> {
    TreeLinks { root: 3, parents: vec![3, 3, 3], lefts: vec![3, 3, 3], rights: vec![3, 3, 3] }
}

/// The slots at which a traversal from the front completes a node, in the
/// order in which it does, and the number of steps that it takes.
fn forward<I: const_lru::SlotIndex + Copy>(tree: &TreeLinks<I>) -> (Vec<usize>, usize) {
    let mut t = DoubleEndedInOrderTraverser::new(tree);
    let mut visited: Vec<usize> = Vec::new();
    let mut steps: usize = 0;
    while !t.has_ended() {
        if t.get_from_smallest_state() == InOrderTraversalState::Left {
            visited.push(t.get_from_smallest_current().to_usize().unwrap());
        }
        t.advance_from_smallest(tree);
        steps += 1;
    }
    (visited, steps)
}

/// The slots at which a traversal from the back takes back the completion
/// of a node, in the order in which it does, and the number of steps that
/// it takes.
fn backward<I: const_lru::SlotIndex + Copy>(tree: &TreeLinks<I>) -> (Vec<usize>, usize) {
    let mut t = DoubleEndedInOrderTraverser::new(tree);
    let mut visited: Vec<usize> = Vec::new();
    let mut steps: usize = 0;
    while !t.has_ended() {
        t.retreat_from_largest(tree);
        steps += 1;
        if t.get_from_largest_state() == InOrderTraversalState::Left {
            visited.push(t.get_from_largest_current().to_usize().unwrap());
        }
    }
    (visited, steps)
}

#[test]
fn traversal_forward_is_in_order() {
    assert_eq!(forward(&tree_a()), ((0..10).collect::<Vec<usize>>(), 30));
    assert_eq!(forward(&tree_b()), ((0..8).collect::<Vec<usize>>(), 24));
    assert_eq!(forward(&tree_c()), ((0..7).collect::<Vec<usize>>(), 21));
    assert_eq!(forward(&tree_d()), (vec![3, 1, 2, 0], 12));
}

#[test]
fn traversal_backward_is_in_reverse_order() {
    assert_eq!(backward(&tree_a()), ((0..10).rev().collect::<Vec<usize>>(), 30));
    assert_eq!(backward(&tree_b()), ((0..8).rev().collect::<Vec<usize>>(), 24));
    assert_eq!(backward(&tree_c()), ((0..7).rev().collect::<Vec<usize>>(), 21));
    assert_eq!(backward(&tree_d()), (vec![0, 2, 1, 3], 12));
}

#[test]
fn traversal_of_an_empty_tree_has_ended() {
    let tree = empty_tree();
    let t = DoubleEndedInOrderTraverser::new(&tree);
    assert!(t.has_ended());
    assert_eq!(t.get_from_smallest_current(), 3);
    assert_eq!(t.get_from_smallest_state(), InOrderTraversalState::Right);
    assert_eq!(t.get_from_largest_current(), 3);
    assert_eq!(t.get_from_largest_state(), InOrderTraversalState::Right);
}

#[test]
fn traversal_ends() {
    let tree = tree_c();
    let mut t = InOrderTraverser::from_smallest(&tree);
    let start = t;
    let end = InOrderTraverser::from_largest(&tree);
    assert!(!t.same(&end));
    for _ in 0..21 {
        t.next(&tree);
    }
    assert!(t.same(&end));
    assert_eq!(t, end);
    for _ in 0..21 {
        t.prev(&tree);
    }
    assert_eq!(t, start);
}

#[test]
fn traversals_meet_in_the_middle() {
    let tree = tree_b();
    let mut t = DoubleEndedInOrderTraverser::new(&tree);
    assert_eq!(t.get_from_smallest_current(), 0);
    assert_eq!(t.get_from_smallest_state(), InOrderTraversalState::Left);
    assert_eq!(t.get_from_largest_current(), 8);
    assert_eq!(t.get_from_largest_state(), InOrderTraversalState::Right);
    let mut steps: usize = 0;
    while !t.has_ended() {
        if steps % 2 == 0 {
            t.advance_from_smallest(&tree);
        } else {
            t.retreat_from_largest(&tree);
        }
        steps += 1;
    }
    assert_eq!(steps, 24);
    assert_eq!(t.get_from_smallest_current(), t.get_from_largest_current());
    assert_eq!(t.get_from_smallest_state(), t.get_from_largest_state());
}

#[test]
fn first_and_predecessor_of_a_subtree() {
    let tree = tree_a();
    assert_eq!(tree.none(), 10);
    assert_eq!(tree.find_leftmost(4), 0);
    assert_eq!(tree.find_leftmost(6), 5);
    assert_eq!(tree.find_leftmost(8), 7);
    assert_eq!(tree.find_leftmost(9), 9);
    assert_eq!(tree.find_in_order_predecessor_ancestor(4), 10);
    assert_eq!(tree.find_in_order_predecessor_ancestor(0), 10);
    assert_eq!(tree.find_in_order_predecessor_ancestor(5), 4);
    assert_eq!(tree.find_in_order_predecessor_ancestor(7), 6);
    assert_eq!(tree.find_in_order_predecessor_ancestor(3), 2);
    assert_eq!(tree.find_in_order_predecessor_ancestor(1), 0);
}

#[test]
fn cursors_on_a_recency_list() {
    let mut c: ConstLru<u8, u8, 3, u8> = ConstLru::new();
    let e: DoubleEndedIterCursors<u8, 3> = DoubleEndedIterCursors::new(&c);
    assert!(e.has_ended());
    assert_eq!(e.get_from_head(), 0);
    assert_eq!(e.get_from_tail(), 0);
    c.insert(1, 1);
    c.insert(2, 2);
    let mut cursors: DoubleEndedIterCursors<u8, 3> = DoubleEndedIterCursors::new(&c);
    assert!(!cursors.has_ended());
    assert_eq!(cursors.get_from_head(), 1);
    assert_eq!(cursors.get_from_head_idx(), 1);
    assert_eq!(cursors.get_from_tail(), 2);
    assert_eq!(cursors.get_from_tail_idx(), 2);
    cursors.advance_from_head(&c);
    assert_eq!(cursors.get_from_head_idx(), 0);
    assert!(!cursors.has_ended());
    cursors.retreat_from_tail(&c);
    assert_eq!(cursors.get_from_tail_idx(), 0);
    assert!(cursors.has_ended());
    c.insert(3, 3);
    let mut full: DoubleEndedIterCursors<u8, 3> = DoubleEndedIterCursors::new(&c);
    assert_eq!(full.get_from_head_idx(), 2);
    assert_eq!(full.get_from_tail_idx(), 3);
    full.retreat_from_tail(&c);
    assert_eq!(full.get_from_tail_idx(), 0);
    full.retreat_from_tail(&c);
    assert_eq!(full.get_from_tail_idx(), 1);
    full.retreat_from_tail(&c);
    assert_eq!(full.get_from_tail_idx(), 2);
    assert!(full.has_ended());
}
