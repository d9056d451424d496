//! Two binary search trees over integer keys: a pointer-style tree of
//! optional boxed nodes, and an enum-style tree with an explicit empty
//! variant. Both are modelled as the set of values they hold.

use vstd::prelude::*;

verus! {

/// A binary search tree node: a value with optional left and right
/// subtrees. Strictly smaller values sit to the left, strictly greater
/// ones to the right; duplicates are rejected up front.
pub struct Node {
    val: i64,
    left: Option<Box<Node>>,
    right: Option<Box<Node>>,
}

impl Node {
    /// The values held by an optional subtree.
    pub closed spec fn opt_values(node: Option<Box<Node>>) -> Set<i64>
        decreases node,
    {
        match node {
            None => Set::empty(),
            Some(n) => n.values(),
        }
    }

    /// The set of values held by this tree.
    pub closed spec fn values(self) -> Set<i64>
        decreases self,
    {
        Node::opt_values(self.left).union(Node::opt_values(self.right)).insert(self.val)
    }

    /// The search-tree ordering: everything left is smaller, everything
    /// right is greater.
    pub closed spec fn wf(self) -> bool
        decreases self,
    {
        &&& forall|x: i64| Node::opt_values(self.left).contains(x) ==> x < self.val
        &&& forall|x: i64| Node::opt_values(self.right).contains(x) ==> x > self.val
        &&& match self.left {
            Some(l) => l.wf(),
            None => true,
        }
        &&& match self.right {
            Some(r) => r.wf(),
            None => true,
        }
    }

    /// A one-node tree.
    pub fn new(root: i64) -> (r: Node)
        ensures
            r.wf(),
            r.values() == Set::empty().insert(root),
    {
        let r = Node { val: root, left: None, right: None };
        proof {
            assert(r.values() =~= Set::empty().insert(root));
        }
        r
    }

    /// Inserts a fresh value, handing the tree through by value.
    pub fn add(root: Node, val: i64) -> (r: Node)
        requires
            root.wf(),
            !root.values().contains(val),
        ensures
            r.wf(),
            r.values() == root.values().insert(val),
        decreases root,
    {
        let ghost pre = root;
        let mut root = root;
        proof {
            assert(root.values().contains(root.val));
        }
        if root.val < val {
            let right = Self::add_child(root.right.take(), val);
            root.right = right;
        } else {
            let left = Self::add_child(root.left.take(), val);
            root.left = left;
        }
        proof {
            assert(root.values() =~= pre.values().insert(val));
        }
        root
    }

    /// Inserts a fresh value below an optional child.
    fn add_child(child: Option<Box<Node>>, val: i64) -> (r: Option<Box<Node>>)
        requires
            Node::opt_values(child).contains(val) == false,
            match child {
                Some(n) => n.wf(),
                None => true,
            },
        ensures
            Node::opt_values(r) == Node::opt_values(child).insert(val),
            match r {
                Some(n) => n.wf(),
                None => true,
            },
        decreases child,
    {
        match child {
            Some(node) => Some(Box::new(Self::add(*node, val))),
            None => {
                let r = Some(Box::new(Node::new(val)));
                proof {
                    assert(Node::opt_values(r) =~= Node::opt_values(child).insert(val));
                }
                r
            }
        }
    }

    /// Whether `val` is in the tree.
    pub fn find(&self, val: i64) -> (r: bool)
        requires
            self.wf(),
        ensures
            r == self.values().contains(val),
        decreases *self,
    {
        if self.val == val {
            true
        } else if self.val < val {
            proof {
                assert(!Node::opt_values(self.left).contains(val));
            }
            Node::find_with_option(&self.right, val)
        } else {
            proof {
                assert(!Node::opt_values(self.right).contains(val));
            }
            Node::find_with_option(&self.left, val)
        }
    }

    /// Whether `val` is in an optional subtree.
    pub fn find_with_option(node: &Option<Box<Node>>, val: i64) -> (r: bool)
        requires
            match node {
                Some(n) => n.wf(),
                None => true,
            },
        ensures
            r == Node::opt_values(*node).contains(val),
        decreases *node,
    {
        match node {
            None => false,
            Some(n) => n.find(val),
        }
    }

    /// Inserts a fresh value in place.
    pub fn add_self(&mut self, val: i64)
        requires
            old(self).wf(),
            !old(self).values().contains(val),
        ensures
            final(self).wf(),
            final(self).values() == old(self).values().insert(val),
        decreases *old(self),
    {
        proof {
            assert(old(self).values().contains(old(self).val));
        }
        if self.val < val {
            match &mut self.right {
                None => {
                    self.right = Some(Box::new(Node::new(val)));
                }
                Some(right) => {
                    right.add_self(val);
                }
            }
            proof {
                assert(Node::opt_values(self.right) =~= Node::opt_values(old(self).right).insert(
                    val,
                ));
                assert forall|x: i64| Node::opt_values(self.right).contains(x) implies x
                    > self.val by {
                    if !Node::opt_values(old(self).right).contains(x) {
                        assert(x == val);
                    }
                }
            }
        } else {
            match &mut self.left {
                None => {
                    self.left = Some(Box::new(Node::new(val)));
                }
                Some(left) => {
                    left.add_self(val);
                }
            }
            proof {
                assert(Node::opt_values(self.left) =~= Node::opt_values(old(self).left).insert(
                    val,
                ));
                assert forall|x: i64| Node::opt_values(self.left).contains(x) implies x
                    < self.val by {
                    if !Node::opt_values(old(self).left).contains(x) {
                        assert(x == val);
                    }
                }
            }
        }
        proof {
            assert(self.values() =~= old(self).values().insert(val));
        }
    }
}

/// An enum-style binary search tree with an explicit `Empty` variant.
/// Inserting a value that is already present leaves the tree unchanged.
pub enum RsNode {
    Node { val: i64, left: Box<RsNode>, right: Box<RsNode> },
    Empty,
}

impl RsNode {
    /// The set of values held by this tree.
    pub closed spec fn values(self) -> Set<i64>
        decreases self,
    {
        match self {
            RsNode::Node { val, left, right } => left.values().union(right.values()).insert(val),
            RsNode::Empty => Set::empty(),
        }
    }

    /// The search-tree ordering: everything left is smaller, everything
    /// right is greater.
    pub closed spec fn wf(self) -> bool
        decreases self,
    {
        match self {
            RsNode::Node { val, left, right } => {
                &&& forall|x: i64| left.values().contains(x) ==> x < val
                &&& forall|x: i64| right.values().contains(x) ==> x > val
                &&& left.wf()
                &&& right.wf()
            }
            RsNode::Empty => true,
        }
    }

    /// The empty tree.
    pub fn new() -> (r: RsNode)
        ensures
            r.wf(),
            r.values() == Set::<i64>::empty(),
    {
        RsNode::Empty
    }

    /// A one-node tree.
    pub fn create(val: i64) -> (r: RsNode)
        ensures
            r.wf(),
            r.values() == Set::empty().insert(val),
    {
        let r = RsNode::Node { val, left: Box::new(RsNode::Empty), right: Box::new(RsNode::Empty) };
        proof {
            let e = RsNode::Empty;
            assert(e.values() =~= Set::<i64>::empty());
            assert(e.wf());
            assert(r.values() =~= Set::empty().insert(val));
        }
        r
    }

    /// Inserts a value; a value already present is left alone.
    pub fn add(&mut self, new_value: i64)
        requires
            old(self).wf(),
        ensures
            final(self).wf(),
            final(self).values() == old(self).values().insert(new_value),
        decreases *old(self),
    {
        match self {
            RsNode::Node { val, left, right } => {
                if new_value < *val {
                    left.add(new_value);
                } else if new_value > *val {
                    right.add(new_value);
                } else {
                    proof {
                        assert(old(self).values() =~= old(self).values().insert(new_value));
                    }
                    return ;
                }
                proof {
                    assert(self.values() =~= old(self).values().insert(new_value));
                }
            }
            RsNode::Empty => {
                *self = RsNode::create(new_value);
            }
        }
    }

    /// Whether `find_value` is in the tree.
    pub fn find(&self, find_value: i64) -> (r: bool)
        requires
            self.wf(),
        ensures
            r == self.values().contains(find_value),
        decreases *self,
    {
        match self {
            RsNode::Node { val, left, right } => {
                if find_value < *val {
                    proof {
                        assert(!right.values().contains(find_value));
                    }
                    left.find(find_value)
                } else if find_value > *val {
                    proof {
                        assert(!left.values().contains(find_value));
                    }
                    right.find(find_value)
                } else {
                    true
                }
            }
            RsNode::Empty => false,
        }
    }
}

} // verus!
