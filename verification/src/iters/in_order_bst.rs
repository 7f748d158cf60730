//! In-order traversal of a binary search tree that is stored as links
//! between slots: each slot names its parent and its two children, and the
//! number of slots stands for "none". The traversal needs no stack: it
//! finds its way by the parent links.

use vstd::prelude::*;

use crate::index::index_of;
use crate::index::slot_of;
use crate::index::SlotIndex;

verus! {

/// What a traversal has completed at the node it stands at.
#[derive(Clone, Copy, PartialEq, Eq, Debug, Structural)]
pub enum InOrderTraversalState {
    /// traversal has completed the left subtree
    Left,
    /// traversal has completed for self
    This,
    /// traversal has completed for right subtree
    Right,
}

/// The links of a binary tree over the slots `0..parents.len()`. The number
/// `parents.len()` in place of a slot means that there is none.
pub struct TreeLinks<I> {
    /// The slot of the root, none if the tree is empty.
    pub root: I,
    /// The parent of each slot.
    pub parents: Vec<I>,
    /// The left child of each slot.
    pub lefts: Vec<I>,
    /// The right child of each slot.
    pub rights: Vec<I>,
}

/// How the nodes of a tree lie in its in-order sequence.
pub struct TreeShape {
    /// The nodes in in-order.
    pub order: Seq<int>,
    /// The position of each node in `order`.
    pub pos: Seq<int>,
    /// Where the subtree of each node begins in `order`.
    pub lo: Seq<int>,
    /// Where the subtree of each node ends in `order`, exclusive.
    pub hi: Seq<int>,
    /// The step of the traversal at which it enters the subtree of each node.
    pub base: Seq<int>,
    /// The positions of the traversal in the order in which it takes them:
    /// three at each node, and at the end the one behind the last node.
    pub tour: Seq<(int, InOrderTraversalState)>,
}

impl TreeShape {
    /// Whether slot `n` is a node of the tree.
    pub open spec fn member(&self, n: int) -> bool {
        &&& 0 <= n < self.pos.len()
        &&& 0 <= self.pos[n] < self.order.len()
        &&& self.order[self.pos[n]] == n
    }

    /// The step at which the traversal stands at node `n` in the state
    /// `state`.
    pub open spec fn step_of(&self, n: int, state: InOrderTraversalState) -> int {
        match state {
            InOrderTraversalState::Left => self.base[n] + 3 * (self.pos[n] - self.lo[n]),
            InOrderTraversalState::This => self.base[n] + 3 * (self.pos[n] - self.lo[n]) + 1,
            InOrderTraversalState::Right => self.base[n] + 3 * (self.hi[n] - self.lo[n]) - 1,
        }
    }
}

impl<I: SlotIndex> TreeLinks<I> {
    /// The number of slots, which also stands for "no slot".
    pub open spec fn cap(&self) -> int {
        self.parents@.len() as int
    }

    /// The slot of the root.
    pub open spec fn root_slot(&self) -> int {
        self.root.as_nat() as int
    }

    /// The parent of slot `n`.
    pub open spec fn parent_of(&self, n: int) -> int {
        self.parents@[n].as_nat() as int
    }

    /// The left child of slot `n`.
    pub open spec fn left_of(&self, n: int) -> int {
        self.lefts@[n].as_nat() as int
    }

    /// The right child of slot `n`.
    pub open spec fn right_of(&self, n: int) -> int {
        self.rights@[n].as_nat() as int
    }

    /// The links of node `n` agree with the shape `s`: the left subtree
    /// fills the stretch before the node, the right subtree the stretch
    /// behind it, and the parent names the node as a child.
    pub open spec fn node_fits(&self, s: TreeShape, n: int) -> bool {
        &&& 0 <= s.lo[n] <= s.pos[n] < s.hi[n] <= s.order.len()
        &&& 0 <= s.base[n]
        &&& if self.left_of(n) == self.cap() {
            s.pos[n] == s.lo[n]
        } else {
            &&& s.member(self.left_of(n))
            &&& self.parent_of(self.left_of(n)) == n
            &&& s.lo[self.left_of(n)] == s.lo[n]
            &&& s.hi[self.left_of(n)] == s.pos[n]
            &&& s.base[self.left_of(n)] == s.base[n]
        }
        &&& if self.right_of(n) == self.cap() {
            s.hi[n] == s.pos[n] + 1
        } else {
            &&& s.member(self.right_of(n))
            &&& self.parent_of(self.right_of(n)) == n
            &&& s.lo[self.right_of(n)] == s.pos[n] + 1
            &&& s.hi[self.right_of(n)] == s.hi[n]
            &&& s.base[self.right_of(n)] == s.base[n] + 3 * (s.pos[n] - s.lo[n]) + 2
        }
        &&& if self.parent_of(n) == self.cap() {
            n == self.root_slot()
        } else {
            &&& s.member(self.parent_of(n))
            &&& (self.left_of(self.parent_of(n)) == n || self.right_of(self.parent_of(n)) == n)
        }
        &&& s.tour[s.step_of(n, InOrderTraversalState::Left)] == (n, InOrderTraversalState::Left)
        &&& s.tour[s.step_of(n, InOrderTraversalState::This)] == (n, InOrderTraversalState::This)
        &&& s.tour[s.step_of(n, InOrderTraversalState::Right)] == (n, InOrderTraversalState::Right)
    }

    /// The links form a tree whose nodes lie in in-order as `s` says.
    pub open spec fn fits(&self, s: TreeShape) -> bool {
        &&& self.cap() <= I::max_nat()
        &&& self.lefts@.len() == self.cap()
        &&& self.rights@.len() == self.cap()
        &&& s.pos.len() == self.cap()
        &&& s.lo.len() == self.cap()
        &&& s.hi.len() == self.cap()
        &&& s.base.len() == self.cap()
        &&& s.order.len() <= self.cap()
        &&& s.tour.len() == 3 * s.order.len() + 1
        &&& s.tour[3 * (s.order.len() as int)] == (self.cap(), InOrderTraversalState::Right)
        &&& self.root_slot() <= self.cap()
        &&& forall|n: int| 0 <= n < self.cap() ==> (#[trigger] self.parents@[n]).as_nat() <= self.cap()
        &&& forall|n: int| 0 <= n < self.cap() ==> (#[trigger] self.lefts@[n]).as_nat() <= self.cap()
        &&& forall|n: int| 0 <= n < self.cap() ==> (#[trigger] self.rights@[n]).as_nat() <= self.cap()
        &&& forall|i: int|
            0 <= i < s.order.len() ==> 0 <= #[trigger] s.order[i] < self.cap() && s.pos[s.order[i]]
                == i
        &&& if self.root_slot() == self.cap() {
            s.order.len() == 0
        } else {
            &&& s.member(self.root_slot())
            &&& self.parent_of(self.root_slot()) == self.cap()
            &&& s.lo[self.root_slot()] == 0
            &&& s.hi[self.root_slot()] == s.order.len()
            &&& s.base[self.root_slot()] == 0
        }
        &&& forall|n: int| s.member(n) ==> #[trigger] self.node_fits(s, n)
    }

    /// The links form a binary tree.
    pub open spec fn wf(&self) -> bool {
        exists|s: TreeShape| self.fits(s)
    }

    /// How the nodes of the tree lie in its in-order sequence.
    pub open spec fn shape(&self) -> TreeShape {
        choose|s: TreeShape| self.fits(s)
    }

    /// The nodes of the tree in in-order.
    pub open spec fn in_order(&self) -> Seq<int> {
        self.shape().order
    }

    /// The positions of the in-order traversal in the order in which it
    /// takes them: for each node the three states in which it stands there,
    /// and at the end the position behind the last node.
    pub open spec fn tour(&self) -> Seq<(int, InOrderTraversalState)> {
        self.shape().tour
    }

    /// Whether slot `n` is a node of the tree.
    pub open spec fn holds(&self, n: int) -> bool {
        self.shape().member(n)
    }

    /// Where the subtree of node `n` begins in the in-order sequence.
    pub open spec fn span_start(&self, n: int) -> int {
        self.shape().lo[n]
    }

    /// Where the subtree of node `n` ends in the in-order sequence,
    /// exclusive.
    pub open spec fn span_end(&self, n: int) -> int {
        self.shape().hi[n]
    }

    /// The shape of a tree fits it.
    pub proof fn lemma_shape(&self)
        requires
            self.wf(),
        ensures
            self.fits(self.shape()),
    {
    }

    /// The value that stands for "no slot".
    pub fn none(&self) -> (r: I)
        requires
            self.wf(),
        ensures
            r.as_nat() == self.cap(),
    {
        proof {
            self.lemma_shape();
        }
        index_of::<I>(self.parents.len())
    }

    /// The parent of node `n`, the number of slots if it has none.
    fn parent(&self, n: usize) -> (r: usize)
        requires
            self.wf(),
            n < self.cap(),
        ensures
            r == self.parent_of(n as int),
            r <= self.cap(),
    {
        proof {
            self.lemma_shape();
        }
        let cap = self.parents.len();
        assert(self.parents@[n as int].as_nat() <= cap);
        slot_of(self.parents[n])
    }

    /// The left child of node `n`, the number of slots if it has none.
    fn left(&self, n: usize) -> (r: usize)
        requires
            self.wf(),
            n < self.cap(),
        ensures
            r == self.left_of(n as int),
            r <= self.cap(),
    {
        proof {
            self.lemma_shape();
        }
        let cap = self.parents.len();
        assert(self.lefts@[n as int].as_nat() <= cap);
        slot_of(self.lefts[n])
    }

    /// The right child of node `n`, the number of slots if it has none.
    fn right(&self, n: usize) -> (r: usize)
        requires
            self.wf(),
            n < self.cap(),
        ensures
            r == self.right_of(n as int),
            r <= self.cap(),
    {
        proof {
            self.lemma_shape();
        }
        let cap = self.parents.len();
        assert(self.rights@[n as int].as_nat() <= cap);
        slot_of(self.rights[n])
    }

    /// The first node in in-order of the subtree of node `i`: the node
    /// reached from `i` by left links alone.
    pub fn find_leftmost(&self, i: I) -> (r: I)
        requires
            self.wf(),
            self.holds(i.as_nat() as int),
        ensures
            self.holds(r.as_nat() as int),
            r.as_nat() == self.in_order()[self.span_start(i.as_nat() as int)],
            self.left_of(r.as_nat() as int) == self.cap(),
            self.span_start(r.as_nat() as int) == self.span_start(i.as_nat() as int),
            self.shape().base[r.as_nat() as int] == self.shape().base[i.as_nat() as int],
    {
        let ghost s = self.shape();
        proof {
            self.lemma_shape();
        }
        let cap = self.parents.len();
        let mut cur = slot_of(i);
        let mut res = i;
        loop
            invariant
                self.wf(),
                self.fits(s),
                s == self.shape(),
                cap == self.cap(),
                s.member(cur as int),
                s.member(i.as_nat() as int),
                res.as_nat() == cur,
                s.lo[cur as int] == s.lo[i.as_nat() as int],
                s.base[cur as int] == s.base[i.as_nat() as int],
            ensures
                self.left_of(cur as int) == self.cap(),
            decreases s.hi[cur as int] - s.lo[cur as int],
        {
            assert(self.node_fits(s, cur as int));
            let l = self.left(cur);
            if l == cap {
                break ;
            }
            assert(self.node_fits(s, l as int));
            res = self.lefts[cur];
            cur = l;
        }
        proof {
            assert(self.node_fits(s, cur as int));
        }
        res
    }

    /// The node just before the subtree of node `i` in in-order, none if
    /// the subtree begins the sequence: the nearest ancestor that has `i`
    /// in its right subtree.
    pub fn find_in_order_predecessor_ancestor(&self, i: I) -> (r: I)
        requires
            self.wf(),
            self.holds(i.as_nat() as int),
        ensures
            self.span_start(i.as_nat() as int) == 0 ==> r.as_nat() == self.cap(),
            self.span_start(i.as_nat() as int) > 0 ==> self.holds(r.as_nat() as int) && r.as_nat()
                == self.in_order()[self.span_start(i.as_nat() as int) - 1]
                && self.shape().base[i.as_nat() as int] == self.shape().base[r.as_nat() as int] + 3
                * (self.shape().pos[r.as_nat() as int] - self.shape().lo[r.as_nat() as int]) + 2,
    {
        let ghost s = self.shape();
        proof {
            self.lemma_shape();
        }
        let cap = self.parents.len();
        let mut cur = slot_of(i);
        let mut res = self.none();
        loop
            invariant_except_break
                res.as_nat() == cap,
            invariant
                self.wf(),
                self.fits(s),
                s == self.shape(),
                cap == self.cap(),
                s.member(cur as int),
                s.member(i.as_nat() as int),
                s.lo[cur as int] == s.lo[i.as_nat() as int],
                s.base[cur as int] == s.base[i.as_nat() as int],
            ensures
                s.lo[i.as_nat() as int] == 0 ==> res.as_nat() == cap,
                s.lo[i.as_nat() as int] > 0 ==> s.member(res.as_nat() as int) && s.pos[res.as_nat() as int]
                    == s.lo[i.as_nat() as int] - 1 && s.base[i.as_nat() as int]
                    == s.base[res.as_nat() as int] + 3 * (s.pos[res.as_nat() as int]
                    - s.lo[res.as_nat() as int]) + 2,
            decreases s.order.len() - (s.hi[cur as int] - s.lo[cur as int]),
        {
            assert(self.node_fits(s, cur as int));
            let p = self.parent(cur);
            if p == cap {
                break ;
            }
            assert(self.node_fits(s, p as int));
            if self.right(p) == cur {
                res = self.parents[cur];
                break ;
            }
            cur = p;
        }
        res
    }
}

/// A position in the in-order traversal of a tree: a node and what the
/// traversal has completed there. Behind the last node the traversal
/// stands at no node, in the state `Right`.
#[derive(Clone, Copy, Debug, PartialEq, Eq)]
pub struct InOrderTraverser<I> {
    pub(crate) current: I,
    pub(crate) state: InOrderTraversalState,
}

impl<I: SlotIndex> InOrderTraverser<I> {
    /// The slot at which the traversal stands.
    pub open(crate) spec fn node(&self) -> int {
        self.current.as_nat() as int
    }

    /// What the traversal has completed at its node.
    pub open(crate) spec fn progress(&self) -> InOrderTraversalState {
        self.state
    }

    /// The traversal stands at a node of the tree or behind the last one.
    pub open(crate) spec fn placed(&self, tree: &TreeLinks<I>) -> bool {
        ||| tree.holds(self.node())
        ||| self.node() == tree.cap() && self.state == InOrderTraversalState::Right
    }

    /// The number of steps that lead from the first position of the
    /// traversal of `tree` to this one. There are three positions at each
    /// node, and one behind the last.
    pub open(crate) spec fn clock(&self, tree: &TreeLinks<I>) -> int {
        let s = tree.shape();
        let n = self.node();
        if n == tree.cap() {
            3 * (s.order.len() as int)
        } else {
            s.step_of(n, self.state)
        }
    }

    /// The number of nodes that the traversal has completed: the position
    /// in in-order of the node that it completes next.
    pub open(crate) spec fn passed(&self, tree: &TreeLinks<I>) -> int {
        let s = tree.shape();
        let n = self.node();
        if n == tree.cap() {
            s.order.len() as int
        } else {
            match self.state {
                InOrderTraversalState::Left => s.pos[n],
                InOrderTraversalState::This => s.pos[n] + 1,
                InOrderTraversalState::Right => s.hi[n],
            }
        }
    }

    /// In the states `Left` and `This` the traversal stands at the node
    /// that it completes next or has completed last.
    pub proof fn lemma_stands_at(&self, tree: &TreeLinks<I>)
        requires
            tree.wf(),
            self.placed(tree),
        ensures
            0 <= self.passed(tree) <= tree.in_order().len(),
            0 <= self.clock(tree) <= 3 * tree.in_order().len(),
            self.progress() == InOrderTraversalState::Left ==> self.node()
                == tree.in_order()[self.passed(tree)],
            self.progress() == InOrderTraversalState::This ==> self.node()
                == tree.in_order()[self.passed(tree) - 1],
            self.node() == tree.cap() ==> self.progress() == InOrderTraversalState::Right,
            tree.tour().len() == 3 * tree.in_order().len() + 1,
            tree.tour()[self.clock(tree)] == (self.node(), self.progress()),
    {
        let s = tree.shape();
        tree.lemma_shape();
        if self.node() != tree.cap() {
            tree.lemma_window(self.node());
            assert(tree.node_fits(s, self.node()));
        }
    }

    /// Two positions that the traversal takes at the same step are the
    /// same position.
    pub proof fn lemma_same_step(&self, other: &Self, tree: &TreeLinks<I>)
        requires
            tree.wf(),
            self.placed(tree),
            other.placed(tree),
            self.clock(tree) == other.clock(tree),
        ensures
            self.node() == other.node(),
            self.progress() == other.progress(),
    {
        self.lemma_stands_at(tree);
        other.lemma_stands_at(tree);
    }

    /// The position behind the last node.
    pub fn from_largest(tree: &TreeLinks<I>) -> (r: Self)
        requires
            tree.wf(),
        ensures
            r.placed(tree),
            r.node() == tree.cap(),
            r.progress() == InOrderTraversalState::Right,
            r.passed(tree) == tree.in_order().len(),
            r.clock(tree) == 3 * tree.in_order().len(),
    {
        Self { current: tree.none(), state: InOrderTraversalState::Right }
    }

    /// The first position: at the first node in in-order, with its left
    /// subtree, which is empty, completed. In an empty tree, the position
    /// behind the last node.
    pub fn from_smallest(tree: &TreeLinks<I>) -> (r: Self)
        requires
            tree.wf(),
        ensures
            r.placed(tree),
            r.passed(tree) == 0,
            r.clock(tree) == 0,
            tree.in_order().len() > 0 ==> r.node() == tree.in_order()[0] && r.progress()
                == InOrderTraversalState::Left,
            tree.in_order().len() == 0 ==> r.node() == tree.cap() && r.progress()
                == InOrderTraversalState::Right,
    {
        let ghost s = tree.shape();
        proof {
            tree.lemma_shape();
        }
        if tree.root.same(tree.none()) {
            Self::from_largest(tree)
        } else {
            let r = Self {
                current: tree.find_leftmost(tree.root),
                state: InOrderTraversalState::Left,
            };
            proof {
                assert(tree.node_fits(s, r.node()));
            }
            r
        }
    }

    /// One step on in the traversal.
    ///
    /// The traversal must not stand behind the last node.
    pub fn next(&mut self, tree: &TreeLinks<I>)
        requires
            tree.wf(),
            old(self).placed(tree),
            old(self).node() != tree.cap(),
        ensures
            final(self).placed(tree),
            final(self).clock(tree) == old(self).clock(tree) + 1,
            (final(self).node(), final(self).progress()) == tree.tour()[old(self).clock(tree) + 1],
            final(self).passed(tree) == old(self).passed(tree) + (if old(self).progress()
                == InOrderTraversalState::Left {
                1int
            } else {
                0int
            }),
    {
        let ghost s = tree.shape();
        let cap = tree.parents.len();
        proof {
            tree.lemma_shape();
            assert(self.node() < cap);
            assert(tree.node_fits(s, self.node()));
        }
        match self.state {
            InOrderTraversalState::Left => self.state = InOrderTraversalState::This,
            InOrderTraversalState::This => {
                let c = slot_of(self.current);
                let right = tree.rights[c];
                if right.same(tree.none()) {
                    self.state = InOrderTraversalState::Right;
                } else {
                    // in-order successor
                    proof {
                        assert(tree.node_fits(s, right.as_nat() as int));
                    }
                    self.current = tree.find_leftmost(right);
                    self.state = InOrderTraversalState::Left;
                    proof {
                        assert(tree.node_fits(s, self.node()));
                    }
                }
            },
            InOrderTraversalState::Right => {
                let c = slot_of(self.current);
                let parent = tree.parents[c];
                if !parent.same(tree.none()) {
                    let p = slot_of(parent);
                    proof {
                        assert(tree.node_fits(s, p as int));
                    }
                    self.state = if tree.lefts[p].same(self.current) {
                        InOrderTraversalState::Left
                    } else {
                        InOrderTraversalState::Right
                    };
                }
                self.current = parent;
            },
        }
    }

    /// One step back in the traversal. From behind the last node it goes
    /// to the root, with the right subtree completed.
    ///
    /// The traversal must not stand at its first position.
    pub fn prev(&mut self, tree: &TreeLinks<I>)
        requires
            tree.wf(),
            old(self).placed(tree),
            old(self).clock(tree) > 0,
        ensures
            final(self).placed(tree),
            final(self).clock(tree) == old(self).clock(tree) - 1,
            (final(self).node(), final(self).progress()) == tree.tour()[old(self).clock(tree) - 1],
            final(self).passed(tree) == old(self).passed(tree) - (if final(self).progress()
                == InOrderTraversalState::Left {
                1int
            } else {
                0int
            }),
    {
        let ghost s = tree.shape();
        let cap = tree.parents.len();
        proof {
            tree.lemma_shape();
            assert(self.node() <= cap);
            if self.node() != tree.cap() {
                assert(tree.node_fits(s, self.node()));
            }
        }
        match self.state {
            InOrderTraversalState::Left => {
                let c = slot_of(self.current);
                let left = tree.lefts[c];
                if left.same(tree.none()) {
                    // the first node of a subtree: its predecessor is the
                    // ancestor that has the subtree on its right
                    let predecessor = tree.find_in_order_predecessor_ancestor(self.current);
                    proof {
                        tree.lemma_window(self.node());
                        assert(tree.node_fits(s, predecessor.as_nat() as int));
                    }
                    self.current = predecessor;
                    self.state = InOrderTraversalState::This;
                } else {
                    proof {
                        assert(tree.node_fits(s, left.as_nat() as int));
                    }
                    self.current = left;
                    self.state = InOrderTraversalState::Right;
                }
            },
            InOrderTraversalState::This => self.state = InOrderTraversalState::Left,
            InOrderTraversalState::Right => {
                if self.current.same(tree.none()) {
                    self.current = tree.root;
                } else {
                    let c = slot_of(self.current);
                    let right = tree.rights[c];
                    if right.same(tree.none()) {
                        self.state = InOrderTraversalState::This;
                    } else {
                        proof {
                            assert(tree.node_fits(s, right.as_nat() as int));
                        }
                        self.current = right;
                    }
                }
            },
        }
        proof {
            self.lemma_stands_at(tree);
        }
    }

    /// Whether two positions are the same.
    pub fn same(&self, other: &Self) -> (r: bool)
        ensures
            r == (self.node() == other.node() && self.progress() == other.progress()),
    {
        self.current.same(other.current) && self.state == other.state
    }
}

impl<I: SlotIndex> TreeLinks<I> {
    /// The steps of the traversal within the subtree of a node lie within
    /// the steps of the whole traversal: three for each node of the
    /// subtree, from the step at which the traversal enters it.
    pub proof fn lemma_window(&self, n: int)
        requires
            self.wf(),
            self.holds(n),
        ensures
            0 <= self.shape().base[n],
            self.shape().base[n] + 3 * (self.span_end(n) - self.span_start(n)) <= 3
                * self.in_order().len(),
            0 <= self.span_start(n) <= self.shape().pos[n] < self.span_end(n)
                <= self.in_order().len(),
            self.in_order()[self.shape().pos[n]] == n,
            (self.span_start(n) == 0) == (self.shape().base[n] == 0),
        decreases self.in_order().len() - (self.span_end(n) - self.span_start(n)),
    {
        let s = self.shape();
        self.lemma_shape();
        assert(self.node_fits(s, n));
        let p = self.parent_of(n);
        if p != self.cap() {
            assert(self.node_fits(s, p));
            self.lemma_window(p);
        }
    }
}

impl<I: SlotIndex> TreeLinks<I> {
    /// A node of the tree by one fitting shape is a node by every other.
    proof fn lemma_member_transfer(&self, s1: TreeShape, s2: TreeShape, n: int)
        requires
            self.fits(s1),
            self.fits(s2),
            s1.member(n),
        ensures
            s2.member(n),
        decreases s1.order.len() - (s1.hi[n] - s1.lo[n]),
    {
        assert(self.node_fits(s1, n));
        let p = self.parent_of(n);
        if p != self.cap() {
            assert(self.node_fits(s1, p));
            self.lemma_member_transfer(s1, s2, p);
            assert(self.node_fits(s2, p));
        }
    }

    /// Two fitting shapes give the subtree of a node the same number of
    /// nodes, and as many of them before the node.
    proof fn lemma_same_sizes(&self, s1: TreeShape, s2: TreeShape, n: int)
        requires
            self.fits(s1),
            self.fits(s2),
            s1.member(n),
            s2.member(n),
        ensures
            s1.hi[n] - s1.lo[n] == s2.hi[n] - s2.lo[n],
            s1.pos[n] - s1.lo[n] == s2.pos[n] - s2.lo[n],
        decreases s1.hi[n] - s1.lo[n],
    {
        assert(self.node_fits(s1, n));
        assert(self.node_fits(s2, n));
        let l = self.left_of(n);
        if l != self.cap() {
            assert(self.node_fits(s1, l));
            self.lemma_same_sizes(s1, s2, l);
        }
        let r = self.right_of(n);
        if r != self.cap() {
            assert(self.node_fits(s1, r));
            self.lemma_same_sizes(s1, s2, r);
        }
    }

    /// Two fitting shapes place a node alike.
    proof fn lemma_same_place(&self, s1: TreeShape, s2: TreeShape, n: int)
        requires
            self.fits(s1),
            self.fits(s2),
            s1.member(n),
            s2.member(n),
        ensures
            s1.lo[n] == s2.lo[n],
            s1.hi[n] == s2.hi[n],
            s1.pos[n] == s2.pos[n],
            s1.base[n] == s2.base[n],
        decreases s1.order.len() - (s1.hi[n] - s1.lo[n]),
    {
        assert(self.node_fits(s1, n));
        assert(self.node_fits(s2, n));
        self.lemma_same_sizes(s1, s2, n);
        let p = self.parent_of(n);
        if p != self.cap() {
            assert(self.node_fits(s1, p));
            assert(self.node_fits(s2, p));
            self.lemma_same_place(s1, s2, p);
            self.lemma_same_sizes(s1, s2, p);
        }
    }

    /// A tree has one shape: whatever fits it says of its nodes what
    /// `shape` says. So the in-order sequence and the traversal of a given
    /// tree can be read off any shape that is shown to fit.
    pub proof fn lemma_one_shape(&self, s: TreeShape)
        requires
            self.fits(s),
        ensures
            self.wf(),
            self.in_order() == s.order,
            forall|n: int| #[trigger] s.member(n) == self.holds(n),
            forall|n: int|
                #[trigger] s.member(n) ==> {
                    &&& self.shape().pos[n] == s.pos[n]
                    &&& self.span_start(n) == s.lo[n]
                    &&& self.span_end(n) == s.hi[n]
                    &&& self.shape().base[n] == s.base[n]
                },
            forall|n: int, state: InOrderTraversalState|
                s.member(n) ==> self.tour()[#[trigger] s.step_of(n, state)] == (n, state),
            self.tour().len() == s.tour.len(),
            self.tour()[self.tour().len() - 1] == (self.cap(), InOrderTraversalState::Right),
    {
        let t = self.shape();
        assert(self.fits(t));
        assert forall|n: int| #[trigger] s.member(n) == t.member(n) by {
            if s.member(n) {
                self.lemma_member_transfer(s, t, n);
            }
            if t.member(n) {
                self.lemma_member_transfer(t, s, n);
            }
        }
        assert forall|n: int| #[trigger] s.member(n) implies t.pos[n] == s.pos[n] && t.lo[n]
            == s.lo[n] && t.hi[n] == s.hi[n] && t.base[n] == s.base[n] by {
            self.lemma_member_transfer(s, t, n);
            self.lemma_same_place(s, t, n);
        }
        if self.root_slot() != self.cap() {
            self.lemma_member_transfer(s, t, self.root_slot());
            self.lemma_same_place(s, t, self.root_slot());
        }
        assert(s.order.len() == t.order.len());
        assert forall|i: int| 0 <= i < s.order.len() implies s.order[i] == t.order[i] by {
            let m = s.order[i];
            assert(s.member(m));
            assert(t.member(m));
            assert(t.pos[m] == s.pos[m]);
        }
        assert(s.order =~= t.order);
        assert forall|n: int, state: InOrderTraversalState| s.member(n) implies t.tour[
        #[trigger] s.step_of(n, state)] == (n, state) by {
            assert(t.member(n));
            assert(self.node_fits(t, n));
            assert(s.step_of(n, state) == t.step_of(n, state));
        }
    }
}

/// A traversal from the first position and one from behind the last node,
/// which walk towards each other. The one from the front is read, then
/// advanced; the one from the back is retreated, then read.
#[derive(Clone, Copy, Debug, PartialEq, Eq)]
pub struct DoubleEndedInOrderTraverser<I> {
    pub(crate) from_smallest: InOrderTraverser<I>,
    pub(crate) from_largest: InOrderTraverser<I>,
}

impl<I: SlotIndex> DoubleEndedInOrderTraverser<I> {
    /// The position of the traversal from the front.
    pub open(crate) spec fn front(&self) -> InOrderTraverser<I> {
        self.from_smallest
    }

    /// The position of the traversal from the back.
    pub open(crate) spec fn back(&self) -> InOrderTraverser<I> {
        self.from_largest
    }

    /// Both traversals stand in the tree, the one from the front not
    /// behind the one from the back.
    pub open(crate) spec fn placed(&self, tree: &TreeLinks<I>) -> bool {
        &&& self.from_smallest.placed(tree)
        &&& self.from_largest.placed(tree)
        &&& self.from_smallest.clock(tree) <= self.from_largest.clock(tree)
    }

    /// Whether the two traversals stand at the same position.
    pub open(crate) spec fn met(&self) -> bool {
        &&& self.from_smallest.node() == self.from_largest.node()
        &&& self.from_smallest.progress() == self.from_largest.progress()
    }

    /// The traversals have met exactly if they stand at the same step.
    pub proof fn lemma_met(&self, tree: &TreeLinks<I>)
        requires
            tree.wf(),
            self.placed(tree),
        ensures
            self.met() == (self.front().clock(tree) == self.back().clock(tree)),
    {
        if self.from_smallest.clock(tree) == self.from_largest.clock(tree) {
            self.from_smallest.lemma_same_step(&self.from_largest, tree);
        }
        if self.met() {
            I::lemma_injective(self.from_smallest.current, self.from_largest.current);
        }
    }

    /// A traversal from the first position and one from behind the last
    /// node.
    pub fn new(tree: &TreeLinks<I>) -> (r: Self)
        requires
            tree.wf(),
        ensures
            r.placed(tree),
            r.front().clock(tree) == 0,
            r.front().passed(tree) == 0,
            r.back().clock(tree) == 3 * tree.in_order().len(),
            r.back().passed(tree) == tree.in_order().len(),
    {
        Self {
            from_largest: InOrderTraverser::from_largest(tree),
            from_smallest: InOrderTraverser::from_smallest(tree),
        }
    }

    /// The slot at which the traversal from the front stands.
    pub fn get_from_smallest_current(&self) -> (r: I)
        ensures
            r.as_nat() == self.front().node(),
    {
        self.from_smallest.current
    }

    /// What the traversal from the front has completed at its node.
    pub fn get_from_smallest_state(&self) -> (r: InOrderTraversalState)
        ensures
            r == self.front().progress(),
    {
        self.from_smallest.state
    }

    /// The slot at which the traversal from the back stands.
    pub fn get_from_largest_current(&self) -> (r: I)
        ensures
            r.as_nat() == self.back().node(),
    {
        self.from_largest.current
    }

    /// What the traversal from the back has completed at its node.
    pub fn get_from_largest_state(&self) -> (r: InOrderTraversalState)
        ensures
            r == self.back().progress(),
    {
        self.from_largest.state
    }

    /// One step on for the traversal from the front, which must not have
    /// met the one from the back.
    pub fn advance_from_smallest(&mut self, tree: &TreeLinks<I>)
        requires
            tree.wf(),
            old(self).placed(tree),
            !old(self).met(),
        ensures
            final(self).placed(tree),
            final(self).back() == old(self).back(),
            final(self).front().clock(tree) == old(self).front().clock(tree) + 1,
            final(self).front().passed(tree) == old(self).front().passed(tree) + (if old(
                self,
            ).front().progress() == InOrderTraversalState::Left {
                1int
            } else {
                0int
            }),
    {
        proof {
            self.lemma_met(tree);
            self.from_largest.lemma_stands_at(tree);
        }
        self.from_smallest.next(tree);
    }

    /// One step back for the traversal from the back, which must not have
    /// met the one from the front.
    pub fn retreat_from_largest(&mut self, tree: &TreeLinks<I>)
        requires
            tree.wf(),
            old(self).placed(tree),
            !old(self).met(),
        ensures
            final(self).placed(tree),
            final(self).front() == old(self).front(),
            final(self).back().clock(tree) == old(self).back().clock(tree) - 1,
            final(self).back().passed(tree) == old(self).back().passed(tree) - (if final(self).back().progress() == InOrderTraversalState::Left {
                1int
            } else {
                0int
            }),
    {
        proof {
            self.lemma_met(tree);
            self.from_smallest.lemma_stands_at(tree);
        }
        self.from_largest.prev(tree);
    }

    /// Whether the two traversals stand at the same position.
    pub fn has_ended(&self) -> (r: bool)
        ensures
            r == self.met(),
    {
        self.from_smallest.same(&self.from_largest)
    }
}

} // verus!
