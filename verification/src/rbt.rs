//! A red-black search tree over integers: a binary search tree whose
//! nodes carry a colour bit, rebalanced after insertion by the classic
//! rotate-and-recolour fix-ups. The tree is modelled as the set of its
//! values with a strict search ordering; the colour bookkeeping is left
//! as runtime behaviour.

use vstd::prelude::*;

verus! {

/// A red-black tree: a coloured node or an (implicitly black) leaf.
#[derive(Debug, PartialEq)]
pub enum Rbt {
    Node { is_red: bool, val: i64, left: Box<Rbt>, right: Box<Rbt> },
    Leaf,
}

/// The colour of a tree's root; leaves count black.
pub open spec fn red_of(tree: Rbt) -> bool {
    match tree {
        Rbt::Node { is_red, .. } => is_red,
        Rbt::Leaf => false,
    }
}

/// The value at a tree's root (meaningful only for nodes).
pub open spec fn val_of(tree: Rbt) -> i64 {
    match tree {
        Rbt::Node { val, .. } => val,
        Rbt::Leaf => 0,
    }
}

/// The left subtree of a tree's root (a leaf for leaves).
pub open spec fn left_of(tree: Rbt) -> Rbt {
    match tree {
        Rbt::Node { left, .. } => *left,
        Rbt::Leaf => Rbt::Leaf,
    }
}

/// The right subtree of a tree's root (a leaf for leaves).
pub open spec fn right_of(tree: Rbt) -> Rbt {
    match tree {
        Rbt::Node { right, .. } => *right,
        Rbt::Leaf => Rbt::Leaf,
    }
}

/// The single rotation the rebalancing uses: with `left` the right child
/// comes up and the old root descends red to its left, mirrored
/// otherwise; the new root inherits the old root's colour.
pub open spec fn spec_rotate(root: Rbt, left: bool) -> Rbt {
    if left {
        let c = right_of(root);
        Rbt::Node {
            is_red: red_of(root),
            val: val_of(c),
            left: Box::new(
                Rbt::Node {
                    is_red: true,
                    val: val_of(root),
                    left: Box::new(left_of(root)),
                    right: Box::new(left_of(c)),
                },
            ),
            right: Box::new(right_of(c)),
        }
    } else {
        let c = left_of(root);
        Rbt::Node {
            is_red: red_of(root),
            val: val_of(c),
            left: Box::new(left_of(c)),
            right: Box::new(
                Rbt::Node {
                    is_red: true,
                    val: val_of(root),
                    left: Box::new(right_of(c)),
                    right: Box::new(right_of(root)),
                },
            ),
        }
    }
}

impl Rbt {
    /// The set of values held by this tree.
    pub open spec fn values(self) -> Set<i64>
        decreases self,
    {
        match self {
            Rbt::Node { val, left, right, .. } => left.values().union(right.values()).insert(val),
            Rbt::Leaf => Set::empty(),
        }
    }

    /// The search ordering: everything left is strictly smaller,
    /// everything right strictly greater.
    pub open spec fn ordered(self) -> bool
        decreases self,
    {
        match self {
            Rbt::Node { val, left, right, .. } => {
                &&& forall|x: i64| left.values().contains(x) ==> x < val
                &&& forall|x: i64| right.values().contains(x) ==> x > val
                &&& left.ordered()
                &&& right.ordered()
            }
            Rbt::Leaf => true,
        }
    }
}

/// Rotating keeps the set of values and the search ordering; only the
/// shape and the colours move.
proof fn lemma_spec_rotate(root: Rbt, left: bool)
    requires
        root is Node,
        left ==> right_of(root) is Node,
        !left ==> left_of(root) is Node,
    ensures
        spec_rotate(root, left).values() == root.values(),
        root.ordered() ==> spec_rotate(root, left).ordered(),
{
    let res = spec_rotate(root, left);
    if left {
        let c = right_of(root);
        let m = left_of(res);
        assert(m.values() =~= left_of(root).values().union(left_of(c).values()).insert(
            val_of(root),
        ));
        assert(root.values() =~= left_of(root).values().union(c.values()).insert(val_of(root)));
        assert(c.values() =~= left_of(c).values().union(right_of(c).values()).insert(val_of(c)));
        assert(res.values() =~= m.values().union(right_of(c).values()).insert(val_of(c)));
        assert(res.values() =~= root.values());
        if root.ordered() {
            assert(c.ordered());
            assert(c.values().contains(val_of(c)));
            assert(val_of(c) > val_of(root));
            assert forall|x: i64| left_of(res).values().contains(x) implies x < val_of(res) by {
                if !left_of(c).values().contains(x) {
                    if x == val_of(root) {
                    } else {
                        assert(left_of(root).values().contains(x));
                        assert(x < val_of(root));
                    }
                } else {
                    assert(c.values().contains(x));
                }
            }
            assert forall|x: i64| left_of(m).values().contains(x) implies x < val_of(m) by {
                assert(left_of(root).values().contains(x));
            }
            assert forall|x: i64| right_of(m).values().contains(x) implies x > val_of(m) by {
                assert(c.values().contains(x));
            }
            assert(m.ordered());
            assert forall|x: i64| right_of(res).values().contains(x) implies x > val_of(res) by {
                assert(c.values().contains(x));
            }
            assert(res.ordered());
        }
    } else {
        let c = left_of(root);
        let m = right_of(res);
        assert(m.values() =~= right_of(c).values().union(right_of(root).values()).insert(
            val_of(root),
        ));
        assert(root.values() =~= c.values().union(right_of(root).values()).insert(val_of(root)));
        assert(c.values() =~= left_of(c).values().union(right_of(c).values()).insert(val_of(c)));
        assert(res.values() =~= left_of(c).values().union(m.values()).insert(val_of(c)));
        assert(res.values() =~= root.values());
        if root.ordered() {
            assert(c.ordered());
            assert(c.values().contains(val_of(c)));
            assert(val_of(c) < val_of(root));
            assert forall|x: i64| right_of(res).values().contains(x) implies x > val_of(res) by {
                if !right_of(c).values().contains(x) {
                    if x == val_of(root) {
                    } else {
                        assert(right_of(root).values().contains(x));
                        assert(x > val_of(root));
                    }
                } else {
                    assert(c.values().contains(x));
                }
            }
            assert forall|x: i64| right_of(m).values().contains(x) implies x > val_of(m) by {
                assert(right_of(root).values().contains(x));
            }
            assert forall|x: i64| left_of(m).values().contains(x) implies x < val_of(m) by {
                assert(c.values().contains(x));
            }
            assert(m.ordered());
            assert forall|x: i64| left_of(res).values().contains(x) implies x < val_of(res) by {
                assert(c.values().contains(x));
            }
            assert(res.ordered());
        }
    }
}

impl Clone for Rbt {
    /// An exact structural copy.
    fn clone(&self) -> (r: Self)
        ensures
            r == *self,
        decreases *self,
    {
        match self {
            Rbt::Node { is_red, val, left, right } => Rbt::Node {
                is_red: *is_red,
                val: *val,
                left: Box::new((**left).clone()),
                right: Box::new((**right).clone()),
            },
            Rbt::Leaf => Rbt::Leaf,
        }
    }
}

impl Rbt {
    /// The empty tree.
    pub fn new() -> (r: Rbt)
        ensures
            r == Rbt::Leaf,
            r.values() == Set::<i64>::empty(),
            r.ordered(),
    {
        Rbt::Leaf
    }

    /// A fresh red node with leaf children.
    fn new_node(data: i64) -> (r: Rbt)
        ensures
            r == (Rbt::Node {
                is_red: true,
                val: data,
                left: Box::new(Rbt::Leaf),
                right: Box::new(Rbt::Leaf),
            }),
            r.values() == Set::empty().insert(data),
            r.ordered(),
    {
        let r = Rbt::Node {
            is_red: true,
            val: data,
            left: Box::new(Rbt::Leaf),
            right: Box::new(Rbt::Leaf),
        };
        proof {
            let e = Rbt::Leaf;
            assert(e.values() =~= Set::<i64>::empty());
            assert(e.ordered());
            assert(r.values() =~= Set::empty().insert(data));
        }
        r
    }

    /// Whether this tree is a leaf.
    pub fn is_nil(&self) -> (r: bool)
        ensures
            r == (*self is Leaf),
    {
        match self {
            Rbt::Node { .. } => false,
            Rbt::Leaf => true,
        }
    }

    /// The colour of this tree's root; a leaf is black.
    pub fn is_red(&self) -> (r: bool)
        ensures
            r == red_of(*self),
    {
        match self {
            Rbt::Node { is_red, .. } => *is_red,
            Rbt::Leaf => false,
        }
    }

    /// The value at this tree's root.
    pub fn value(&self) -> (r: &i64)
        requires
            *self is Node,
        ensures
            *r == val_of(*self),
    {
        match self {
            Rbt::Node { val, .. } => val,
            Rbt::Leaf => vstd::pervasive::unreached(),
        }
    }

    /// A mutable handle on one child of this node.
    pub fn child(&mut self, left: bool) -> (r: &mut Rbt)
        requires
            *old(self) is Node,
        ensures
            *r == (if left {
                left_of(*old(self))
            } else {
                right_of(*old(self))
            }),
            left ==> *final(self) == (Rbt::Node {
                is_red: red_of(*old(self)),
                val: val_of(*old(self)),
                left: Box::new(*final(r)),
                right: Box::new(right_of(*old(self))),
            }),
            !left ==> *final(self) == (Rbt::Node {
                is_red: red_of(*old(self)),
                val: val_of(*old(self)),
                left: Box::new(left_of(*old(self))),
                right: Box::new(*final(r)),
            }),
    {
        match self {
            Rbt::Node { left: child_left, right: child_right, .. } => {
                if left {
                    &mut **child_left
                } else {
                    &mut **child_right
                }
            }
            Rbt::Leaf => vstd::pervasive::unreached(),
        }
    }

    /// A mutable handle on the left child.
    pub fn left(&mut self) -> (r: &mut Rbt)
        requires
            *old(self) is Node,
        ensures
            *r == left_of(*old(self)),
            *final(self) == (Rbt::Node {
                is_red: red_of(*old(self)),
                val: val_of(*old(self)),
                left: Box::new(*final(r)),
                right: Box::new(right_of(*old(self))),
            }),
    {
        self.child(true)
    }

    /// A mutable handle on the right child.
    pub fn right(&mut self) -> (r: &mut Rbt)
        requires
            *old(self) is Node,
        ensures
            *r == right_of(*old(self)),
            *final(self) == (Rbt::Node {
                is_red: red_of(*old(self)),
                val: val_of(*old(self)),
                left: Box::new(left_of(*old(self))),
                right: Box::new(*final(r)),
            }),
    {
        self.child(false)
    }

    /// Repaints this tree's root, if it has one.
    fn update_colors(&mut self, new_is_red: bool)
        ensures
            *old(self) is Node ==> *final(self) == (Rbt::Node {
                is_red: new_is_red,
                val: val_of(*old(self)),
                left: Box::new(left_of(*old(self))),
                right: Box::new(right_of(*old(self))),
            }),
            *old(self) is Leaf ==> *final(self) == *old(self),
    {
        match self {
            Rbt::Node { is_red, .. } => {
                *is_red = new_is_red;
            }
            Rbt::Leaf => {}
        }
    }

    /// The rebalancing rotation, colours included: the child on the far
    /// side comes up, keeping the old root's colour, and the old root
    /// descends red.
    pub fn rotate(root: Rbt, left: bool) -> (r: Rbt)
        requires
            root is Node,
            left ==> right_of(root) is Node,
            !left ==> left_of(root) is Node,
        ensures
            r == spec_rotate(root, left),
            r.values() == root.values(),
            root.ordered() ==> r.ordered(),
    {
        proof {
            lemma_spec_rotate(root, left);
        }
        match root {
            Rbt::Node { is_red, val, left: root_left, right: root_right } => {
                if left {
                    match *root_right {
                        Rbt::Node {
                            is_red: _,
                            val: child_val,
                            left: child_left,
                            right: child_right,
                        } => {
                            Rbt::Node {
                                is_red,
                                val: child_val,
                                left: Box::new(
                                    Rbt::Node {
                                        is_red: true,
                                        val,
                                        left: root_left,
                                        right: child_left,
                                    },
                                ),
                                right: child_right,
                            }
                        }
                        Rbt::Leaf => vstd::pervasive::unreached(),
                    }
                } else {
                    match *root_left {
                        Rbt::Node {
                            is_red: _,
                            val: child_val,
                            left: child_left,
                            right: child_right,
                        } => {
                            Rbt::Node {
                                is_red,
                                val: child_val,
                                left: child_left,
                                right: Box::new(
                                    Rbt::Node {
                                        is_red: true,
                                        val,
                                        left: child_right,
                                        right: root_right,
                                    },
                                ),
                            }
                        }
                        Rbt::Leaf => vstd::pervasive::unreached(),
                    }
                }
            }
            Rbt::Leaf => vstd::pervasive::unreached(),
        }
    }

    /// Whether `data` is in the tree.
    pub fn search(&mut self, data: i64) -> (r: bool)
        requires
            old(self).ordered(),
        ensures
            r == old(self).values().contains(data),
            *final(self) == *old(self),
        decreases *old(self),
    {
        match self {
            Rbt::Node { val, left, right, .. } => {
                if data < *val {
                    proof {
                        assert(!right_of(*old(self)).values().contains(data));
                    }
                    (&mut **left).search(data)
                } else if data > *val {
                    proof {
                        assert(!left_of(*old(self)).values().contains(data));
                    }
                    (&mut **right).search(data)
                } else {
                    true
                }
            }
            Rbt::Leaf => false,
        }
    }

    /// Inserts a value and rebalances; a value already present is left
    /// alone.
    pub fn insert(&mut self, new_val: i64)
        requires
            old(self).ordered(),
        ensures
            final(self).ordered(),
            final(self).values() == old(self).values().insert(new_val),
    {
        let mut tmp = Rbt::Leaf;
        core::mem::swap(self, &mut tmp);
        let mut tmp = tmp.internal_insert(new_val);
        tmp.update_colors(false);
        proof {
            assert(tmp.values() =~= old(self).values().insert(new_val));
        }
        core::mem::swap(self, &mut tmp);
    }

    /// Inserts a value and applies the local fix-ups: lift a red right
    /// child, straighten two reds in a row on the left, and split a node
    /// with two red children.
    fn internal_insert(self, new_val: i64) -> (r: Rbt)
        requires
            self.ordered(),
        ensures
            r.ordered(),
            r.values() == self.values().insert(new_val),
        decreases self,
    {
        match self {
            Rbt::Leaf => {
                let r = Self::new_node(new_val);
                proof {
                    assert(r.values() =~= self.values().insert(new_val));
                }
                r
            }
            Rbt::Node { is_red, val, left, right } => {
                let mut left = left;
                let mut right = right;
                if new_val < val {
                    let grown = (*left).internal_insert(new_val);
                    left = Box::new(grown);
                } else if new_val > val {
                    let grown = (*right).internal_insert(new_val);
                    right = Box::new(grown);
                }
                let mut t = Rbt::Node { is_red, val, left, right };
                proof {
                    assert(t.values() =~= self.values().insert(new_val));
                    assert forall|x: i64| left_of(t).values().contains(x) implies x < val by {
                        if !left_of(self).values().contains(x) {
                            assert(x == new_val);
                        }
                    }
                    assert forall|x: i64| right_of(t).values().contains(x) implies x > val by {
                        if !right_of(self).values().contains(x) {
                            assert(x == new_val);
                        }
                    }
                    assert(t.ordered());
                }
                let lift = match &t {
                    Rbt::Node { left, right, .. } => right.is_red() && !left.is_red(),
                    Rbt::Leaf => false,
                };
                if lift {
                    t = Self::rotate(t, true);
                }
                let straighten = match &t {
                    Rbt::Node { left, .. } => left.is_red() && match &**left {
                        Rbt::Node { left: inner, .. } => inner.is_red(),
                        Rbt::Leaf => false,
                    },
                    Rbt::Leaf => false,
                };
                if straighten {
                    t = Self::rotate(t, false);
                }
                let split = match &t {
                    Rbt::Node { left, right, .. } => left.is_red() && right.is_red(),
                    Rbt::Leaf => false,
                };
                if split {
                    let ghost pre = t;
                    t.update_colors(true);
                    t.child(true).update_colors(false);
                    t.child(false).update_colors(false);
                    proof {
                        assert(left_of(t).values() =~= left_of(pre).values());
                        assert(right_of(t).values() =~= right_of(pre).values());
                        assert(t.values() =~= left_of(t).values().union(
                            right_of(t).values(),
                        ).insert(val_of(t)));
                        assert(pre.values() =~= left_of(pre).values().union(
                            right_of(pre).values(),
                        ).insert(val_of(pre)));
                        assert(t.values() =~= pre.values());
                        assert(red_of(left_of(pre)) && left_of(pre) is Node);
                        assert(red_of(right_of(pre)) && right_of(pre) is Node);
                        assert(left_of(pre).ordered());
                        assert(right_of(pre).ordered());
                        assert(left_of(t) == (Rbt::Node {
                            is_red: false,
                            val: val_of(left_of(pre)),
                            left: Box::new(left_of(left_of(pre))),
                            right: Box::new(right_of(left_of(pre))),
                        }));
                        assert(right_of(t) == (Rbt::Node {
                            is_red: false,
                            val: val_of(right_of(pre)),
                            left: Box::new(left_of(right_of(pre))),
                            right: Box::new(right_of(right_of(pre))),
                        }));
                        assert(left_of(t).ordered());
                        assert(right_of(t).ordered());
                        assert forall|x: i64| left_of(t).values().contains(x) implies x < val_of(
                            t,
                        ) by {
                            assert(left_of(pre).values().contains(x));
                        }
                        assert forall|x: i64| right_of(t).values().contains(x) implies x > val_of(
                            t,
                        ) by {
                            assert(right_of(pre).values().contains(x));
                        }
                        assert(t.ordered());
                    }
                }
                t
            }
        }
    }
}

} // verus!
