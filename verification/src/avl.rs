//! A self-balancing binary search tree with stored node heights. The tree
//! is modelled as the multiset of its values (duplicates insert to the
//! left), with a non-strict ordering invariant, and the stored heights are
//! tracked exactly: rebalancing recomputes them bottom-up.

use vstd::multiset::Multiset;
use vstd::prelude::*;

verus! {

/// An optional boxed subtree.
pub type AvlBoxOption = Option<Box<Avl>>;

/// A height-balanced search tree node.
pub struct Avl {
    pub value: i64,
    pub height: i32,
    pub left: Option<Box<Avl>>,
    pub right: Option<Box<Avl>>,
}

/// The larger of two integers.
pub open spec fn max_int(a: int, b: int) -> int {
    if a >= b {
        a
    } else {
        b
    }
}

/// The stored height of an optional subtree; a missing child counts -1.
pub open spec fn opt_stored(node: AvlBoxOption) -> int {
    match node {
        None => -1,
        Some(n) => n.height as int,
    }
}

impl Avl {
    /// The multiset of values in an optional subtree.
    pub open spec fn opt_ms(node: AvlBoxOption) -> Multiset<i64>
        decreases node,
    {
        match node {
            None => Multiset::empty(),
            Some(n) => n.ms(),
        }
    }

    /// The multiset of values in this tree.
    pub open spec fn ms(self) -> Multiset<i64>
        decreases self,
    {
        Avl::opt_ms(self.left).add(Avl::opt_ms(self.right)).insert(self.value)
    }

    /// The search ordering: values to the left are no larger, values to
    /// the right no smaller. Duplicates always descend to the left, so
    /// both bounds are non-strict.
    pub open spec fn ordered(self) -> bool
        decreases self,
    {
        &&& forall|x: i64| Avl::opt_ms(self.left).contains(x) ==> x <= self.value
        &&& forall|x: i64| Avl::opt_ms(self.right).contains(x) ==> x >= self.value
        &&& Avl::opt_ordered(self.left)
        &&& Avl::opt_ordered(self.right)
    }

    /// The ordering of an optional subtree.
    pub open spec fn opt_ordered(node: AvlBoxOption) -> bool
        decreases node,
    {
        match node {
            None => true,
            Some(n) => n.ordered(),
        }
    }

    /// The true height of this tree, from its shape alone.
    pub open spec fn real_height(self) -> int
        decreases self,
    {
        1 + max_int(Avl::opt_real_height(self.left), Avl::opt_real_height(self.right))
    }

    /// The true height of an optional subtree; a missing child counts -1.
    pub open spec fn opt_real_height(node: AvlBoxOption) -> int
        decreases node,
    {
        match node {
            None => -1,
            Some(n) => n.real_height(),
        }
    }

    /// Every stored height equals the true height of its subtree.
    pub open spec fn heights_ok(self) -> bool
        decreases self,
    {
        &&& self.height as int == self.real_height()
        &&& Avl::opt_heights_ok(self.left)
        &&& Avl::opt_heights_ok(self.right)
    }

    /// The stored heights of an optional subtree are exact.
    pub open spec fn opt_heights_ok(node: AvlBoxOption) -> bool
        decreases node,
    {
        match node {
            None => true,
            Some(n) => n.heights_ok(),
        }
    }

    /// Every stored height lies in `[0, bound)` — the headroom the
    /// rebalancing arithmetic needs to stay inside `i32`.
    pub open spec fn heights_bounded(self, bound: int) -> bool
        decreases self,
    {
        &&& 0 <= self.height as int
        &&& (self.height as int) < bound
        &&& Avl::opt_heights_bounded(self.left, bound)
        &&& Avl::opt_heights_bounded(self.right, bound)
    }

    /// The stored heights of an optional subtree lie in `[0, bound)`.
    pub open spec fn opt_heights_bounded(node: AvlBoxOption, bound: int) -> bool
        decreases node,
    {
        match node {
            None => true,
            Some(n) => n.heights_bounded(bound),
        }
    }
}

/// The true height of a tree is below its number of values.
pub proof fn lemma_real_height_lt_len(tree: Avl)
    ensures
        0 <= tree.real_height() < tree.ms().len(),
    decreases tree,
{
    match tree.left {
        None => {}
        Some(l) => {
            lemma_real_height_lt_len(*l);
        }
    }
    match tree.right {
        None => {}
        Some(r) => {
            lemma_real_height_lt_len(*r);
        }
    }
}

/// Exact stored heights below a value bound give bounded stored heights.
pub proof fn lemma_heights_ok_bounded(tree: Avl, bound: int)
    requires
        tree.heights_ok(),
        tree.ms().len() <= bound,
    ensures
        tree.heights_bounded(bound),
    decreases tree,
{
    lemma_real_height_lt_len(tree);
    match tree.left {
        None => {}
        Some(l) => {
            lemma_heights_ok_bounded(*l, bound);
        }
    }
    match tree.right {
        None => {}
        Some(r) => {
            lemma_heights_ok_bounded(*r, bound);
        }
    }
}

/// Bounded stored heights stay bounded under a larger bound.
pub proof fn lemma_bounded_mono(tree: Avl, small: int, large: int)
    requires
        tree.heights_bounded(small),
        small <= large,
    ensures
        tree.heights_bounded(large),
    decreases tree,
{
    match tree.left {
        None => {}
        Some(l) => {
            lemma_bounded_mono(*l, small, large);
        }
    }
    match tree.right {
        None => {}
        Some(r) => {
            lemma_bounded_mono(*r, small, large);
        }
    }
}

/// An exact stored height agrees with the true height.
proof fn lemma_opt_ok_stored(node: AvlBoxOption)
    requires
        Avl::opt_heights_ok(node),
    ensures
        opt_stored(node) == Avl::opt_real_height(node),
{
}

/// A bounded optional subtree has a stored root height in `[-1, bound)`.
proof fn lemma_opt_bounded_stored(node: AvlBoxOption, bound: int)
    requires
        0 < bound,
        Avl::opt_heights_bounded(node, bound),
    ensures
        -1 <= opt_stored(node) && opt_stored(node) < bound,
{
    match node {
        None => {}
        Some(n) => {
            assert(n.heights_bounded(bound));
        }
    }
}

/// A right rotation — the left child lifted to the root, the old root
/// demoted to its right with the former grandchild as its new left —
/// keeps the multiset of values and the search ordering. The stored
/// heights play no part here.
proof fn lemma_rotated_right(orig: Avl, res: Avl)
    requires
        orig.left is Some,
        ({
            let c = *orig.left->0;
            &&& res.value == c.value
            &&& res.left == c.left
            &&& res.right is Some
            &&& ({
                let m = *res.right->0;
                &&& m.value == orig.value
                &&& m.right == orig.right
                &&& m.left == c.right
            })
        }),
    ensures
        res.ms() == orig.ms(),
        orig.ordered() ==> res.ordered(),
{
    let c = *orig.left->0;
    let m = *res.right->0;
    assert(Avl::opt_ms(orig.left) == c.ms());
    assert(Avl::opt_ms(res.right) == m.ms());
    assert(Avl::opt_ms(m.left) == Avl::opt_ms(c.right));
    assert(res.ms() =~= orig.ms());
    if orig.ordered() {
        assert(c.ordered());
        assert(c.ms().contains(c.value));
        assert(Avl::opt_ms(orig.left).contains(c.value));
        assert(c.value <= orig.value);
        assert forall|x: i64| Avl::opt_ms(m.left).contains(x) implies x <= m.value by {
            assert(c.ms().contains(x));
        }
        assert forall|x: i64| Avl::opt_ms(res.left).contains(x) implies x <= res.value by {
            assert(c.ms().contains(x));
        }
        assert(m.ordered());
        assert forall|x: i64| Avl::opt_ms(res.right).contains(x) implies x >= res.value by {
            assert(m.ms().contains(x));
            if x != orig.value {
                if Avl::opt_ms(c.right).contains(x) {
                    assert(x >= c.value);
                } else {
                    assert(Avl::opt_ms(orig.right).contains(x));
                    assert(x >= orig.value);
                }
            }
        }
        assert(res.ordered());
    }
}

/// The mirror image: a left rotation keeps the multiset of values and
/// the search ordering.
proof fn lemma_rotated_left(orig: Avl, res: Avl)
    requires
        orig.right is Some,
        ({
            let c = *orig.right->0;
            &&& res.value == c.value
            &&& res.right == c.right
            &&& res.left is Some
            &&& ({
                let m = *res.left->0;
                &&& m.value == orig.value
                &&& m.left == orig.left
                &&& m.right == c.left
            })
        }),
    ensures
        res.ms() == orig.ms(),
        orig.ordered() ==> res.ordered(),
{
    let c = *orig.right->0;
    let m = *res.left->0;
    assert(Avl::opt_ms(orig.right) == c.ms());
    assert(Avl::opt_ms(res.left) == m.ms());
    assert(Avl::opt_ms(m.right) == Avl::opt_ms(c.left));
    assert(res.ms() =~= orig.ms());
    if orig.ordered() {
        assert(c.ordered());
        assert(c.ms().contains(c.value));
        assert(Avl::opt_ms(orig.right).contains(c.value));
        assert(c.value >= orig.value);
        assert forall|x: i64| Avl::opt_ms(m.right).contains(x) implies x >= m.value by {
            assert(c.ms().contains(x));
        }
        assert forall|x: i64| Avl::opt_ms(res.right).contains(x) implies x >= res.value by {
            assert(c.ms().contains(x));
        }
        assert(m.ordered());
        assert forall|x: i64| Avl::opt_ms(res.left).contains(x) implies x <= res.value by {
            assert(m.ms().contains(x));
            if x != orig.value {
                if Avl::opt_ms(c.left).contains(x) {
                    assert(x <= c.value);
                } else {
                    assert(Avl::opt_ms(orig.left).contains(x));
                    assert(x <= orig.value);
                }
            }
        }
        assert(res.ordered());
    }
}

impl Avl {
    /// A one-node tree of height zero.
    pub fn new(value: i64) -> (r: Box<Avl>)
        ensures
            r.ms() == Multiset::empty().insert(value),
            r.ordered(),
            r.heights_ok(),
            r.height == 0,
            r.value == value,
    {
        let r = Box::new(Avl { value, height: 0, left: None, right: None });
        proof {
            assert(r.ms() =~= Multiset::empty().insert(value));
        }
        r
    }

    /// Whether `value` is in the tree.
    pub fn search(&self, value: &i64) -> (r: bool)
        requires
            self.ordered(),
        ensures
            r == self.ms().contains(*value),
        decreases *self,
    {
        if self.value == *value {
            true
        } else if self.value < *value {
            proof {
                assert(!Avl::opt_ms(self.left).contains(*value));
            }
            search(&self.right, value)
        } else {
            proof {
                assert(!Avl::opt_ms(self.right).contains(*value));
            }
            search(&self.left, value)
        }
    }

    /// The stored height of this node.
    pub fn height(&self) -> (r: i32)
        ensures
            r == self.height,
    {
        self.height
    }

    /// The stored balance factor: left height minus right height.
    fn balance_factor(&self) -> (r: i64)
        ensures
            r == opt_stored(self.left) - opt_stored(self.right),
    {
        get_height(&self.left) as i64 - get_height(&self.right) as i64
    }

    /// Recomputes this node's stored height from its children's stored
    /// heights.
    pub fn update_height(&mut self)
        requires
            opt_stored(old(self).left) < i32::MAX,
            opt_stored(old(self).right) < i32::MAX,
        ensures
            *final(self) == (Avl { height: final(self).height, ..*old(self) }),
            final(self).height as int == 1 + max_int(
                opt_stored(old(self).left),
                opt_stored(old(self).right),
            ),
    {
        let lh = get_height(&self.left);
        let rh = get_height(&self.right);
        let taller = if lh >= rh {
            lh
        } else {
            rh
        };
        self.height = taller + 1;
    }

    /// Rotates this node to the right, lifting its left child to the
    /// root; the stored heights of the nodes that moved are recomputed
    /// bottom-up. Without a left child the tree is returned unchanged.
    pub fn right_rotate(self) -> (r: Box<Avl>)
        requires
            self.heights_bounded(i32::MAX - 2),
        ensures
            r.ms() == self.ms(),
            self.ordered() ==> r.ordered(),
            self.left is Some ==> ((Avl::opt_heights_ok((*self.left->0).left)
                && Avl::opt_heights_ok((*self.left->0).right) && Avl::opt_heights_ok(self.right))
                ==> (Avl::opt_heights_ok(r.left) && Avl::opt_heights_ok(r.right))),
            forall|b: int| #[trigger] self.heights_bounded(b) ==> r.heights_bounded(b + 2),
            self.left is None ==> *r == self,
    {
        let mut this = self;
        let mut child = match this.left.take() {
            None => {
                proof {
                    assert forall|b: int| #[trigger] self.heights_bounded(b)
                        implies this.heights_bounded(b + 2) by {
                        lemma_bounded_mono(this, b, b + 2);
                    }
                }
                return Box::new(this);
            }
            Some(node) => node,
        };
        proof {
            assert((*self.left->0).heights_bounded(i32::MAX - 2));
            lemma_opt_bounded_stored(self.right, i32::MAX - 2);
            lemma_opt_bounded_stored((*self.left->0).left, i32::MAX - 2);
            lemma_opt_bounded_stored((*self.left->0).right, i32::MAX - 2);
        }
        if child.right.is_none() {
            child.right = Some(Box::new(this));
            update_height(&mut child.right);
            child.update_height();
            proof {
                let c0 = *self.left->0;
                let m = *child.right->0;
                lemma_rotated_right(self, *child);
                if Avl::opt_heights_ok(c0.left) && Avl::opt_heights_ok(c0.right)
                    && Avl::opt_heights_ok(self.right) {
                    lemma_opt_ok_stored(m.left);
                    lemma_opt_ok_stored(m.right);
                    assert(m.heights_ok());
                    assert(Avl::opt_heights_ok(child.left));
                    assert(Avl::opt_heights_ok(child.right));
                }
                assert forall|b: int| #[trigger] self.heights_bounded(b) implies child.heights_bounded(
                    b + 2,
                ) by {
                    assert(c0.heights_bounded(b));
                    if c0.left is Some {
                        assert((*c0.left->0).heights_bounded(b));
                        lemma_bounded_mono(*c0.left->0, b, b + 2);
                    }
                    if c0.right is Some {
                        assert((*c0.right->0).heights_bounded(b));
                        lemma_bounded_mono(*c0.right->0, b, b + 2);
                    }
                    if self.right is Some {
                        assert((*self.right->0).heights_bounded(b));
                        lemma_bounded_mono(*self.right->0, b, b + 2);
                    }
                    assert(m.heights_bounded(b + 2));
                    assert(child.heights_bounded(b + 2));
                }
            }
            child
        } else {
            let grandchild = child.right.take();
            this.left = Some(grandchild.unwrap());
            this.update_height();
            child.right = Some(Box::new(this));
            child.update_height();
            proof {
                let c0 = *self.left->0;
                let m = *child.right->0;
                lemma_rotated_right(self, *child);
                if Avl::opt_heights_ok(c0.left) && Avl::opt_heights_ok(c0.right)
                    && Avl::opt_heights_ok(self.right) {
                    lemma_opt_ok_stored(m.left);
                    lemma_opt_ok_stored(m.right);
                    assert(m.heights_ok());
                    assert(Avl::opt_heights_ok(child.left));
                    assert(Avl::opt_heights_ok(child.right));
                }
                assert forall|b: int| #[trigger] self.heights_bounded(b) implies child.heights_bounded(
                    b + 2,
                ) by {
                    assert(c0.heights_bounded(b));
                    if c0.left is Some {
                        assert((*c0.left->0).heights_bounded(b));
                        lemma_bounded_mono(*c0.left->0, b, b + 2);
                    }
                    if c0.right is Some {
                        assert((*c0.right->0).heights_bounded(b));
                        lemma_bounded_mono(*c0.right->0, b, b + 2);
                    }
                    if self.right is Some {
                        assert((*self.right->0).heights_bounded(b));
                        lemma_bounded_mono(*self.right->0, b, b + 2);
                    }
                    assert(m.heights_bounded(b + 2));
                    assert(child.heights_bounded(b + 2));
                }
            }
            child
        }
    }

    /// Rotates this node to the left, lifting its right child to the
    /// root; the stored heights of the nodes that moved are recomputed
    /// bottom-up. Without a right child the tree is returned unchanged.
    pub fn left_rotate(self) -> (r: Box<Avl>)
        requires
            self.heights_bounded(i32::MAX - 2),
        ensures
            r.ms() == self.ms(),
            self.ordered() ==> r.ordered(),
            self.right is Some ==> ((Avl::opt_heights_ok((*self.right->0).left)
                && Avl::opt_heights_ok((*self.right->0).right) && Avl::opt_heights_ok(self.left))
                ==> (Avl::opt_heights_ok(r.left) && Avl::opt_heights_ok(r.right))),
            forall|b: int| #[trigger] self.heights_bounded(b) ==> r.heights_bounded(b + 2),
            self.right is None ==> *r == self,
    {
        let mut this = self;
        let mut child = match this.right.take() {
            None => {
                proof {
                    assert forall|b: int| #[trigger] self.heights_bounded(b)
                        implies this.heights_bounded(b + 2) by {
                        lemma_bounded_mono(this, b, b + 2);
                    }
                }
                return Box::new(this);
            }
            Some(node) => node,
        };
        proof {
            assert((*self.right->0).heights_bounded(i32::MAX - 2));
            lemma_opt_bounded_stored(self.left, i32::MAX - 2);
            lemma_opt_bounded_stored((*self.right->0).left, i32::MAX - 2);
            lemma_opt_bounded_stored((*self.right->0).right, i32::MAX - 2);
        }
        if child.left.is_none() {
            child.left = Some(Box::new(this));
            update_height(&mut child.left);
            child.update_height();
            proof {
                let c0 = *self.right->0;
                let m = *child.left->0;
                lemma_rotated_left(self, *child);
                if Avl::opt_heights_ok(c0.left) && Avl::opt_heights_ok(c0.right)
                    && Avl::opt_heights_ok(self.left) {
                    lemma_opt_ok_stored(m.left);
                    lemma_opt_ok_stored(m.right);
                    assert(m.heights_ok());
                    assert(Avl::opt_heights_ok(child.right));
                    assert(Avl::opt_heights_ok(child.left));
                }
                assert forall|b: int| #[trigger] self.heights_bounded(b) implies child.heights_bounded(
                    b + 2,
                ) by {
                    assert(c0.heights_bounded(b));
                    if c0.left is Some {
                        assert((*c0.left->0).heights_bounded(b));
                        lemma_bounded_mono(*c0.left->0, b, b + 2);
                    }
                    if c0.right is Some {
                        assert((*c0.right->0).heights_bounded(b));
                        lemma_bounded_mono(*c0.right->0, b, b + 2);
                    }
                    if self.left is Some {
                        assert((*self.left->0).heights_bounded(b));
                        lemma_bounded_mono(*self.left->0, b, b + 2);
                    }
                    assert(m.heights_bounded(b + 2));
                    assert(child.heights_bounded(b + 2));
                }
            }
            child
        } else {
            let grandchild = child.left.take();
            this.right = Some(grandchild.unwrap());
            this.update_height();
            child.left = Some(Box::new(this));
            child.update_height();
            proof {
                let c0 = *self.right->0;
                let m = *child.left->0;
                lemma_rotated_left(self, *child);
                if Avl::opt_heights_ok(c0.left) && Avl::opt_heights_ok(c0.right)
                    && Avl::opt_heights_ok(self.left) {
                    lemma_opt_ok_stored(m.left);
                    lemma_opt_ok_stored(m.right);
                    assert(m.heights_ok());
                    assert(Avl::opt_heights_ok(child.right));
                    assert(Avl::opt_heights_ok(child.left));
                }
                assert forall|b: int| #[trigger] self.heights_bounded(b) implies child.heights_bounded(
                    b + 2,
                ) by {
                    assert(c0.heights_bounded(b));
                    if c0.left is Some {
                        assert((*c0.left->0).heights_bounded(b));
                        lemma_bounded_mono(*c0.left->0, b, b + 2);
                    }
                    if c0.right is Some {
                        assert((*c0.right->0).heights_bounded(b));
                        lemma_bounded_mono(*c0.right->0, b, b + 2);
                    }
                    if self.left is Some {
                        assert((*self.left->0).heights_bounded(b));
                        lemma_bounded_mono(*self.left->0, b, b + 2);
                    }
                    assert(m.heights_bounded(b + 2));
                    assert(child.heights_bounded(b + 2));
                }
            }
            child
        }
    }

    /// Restores balance at this node when the stored balance factor has
    /// drifted past one, with the single or double rotation the lean
    /// calls for; a tree within tolerance is boxed unchanged. Rotating
    /// recomputes the stored heights of every node it moves, but not the
    /// height of the returned root.
    pub fn rotate(self) -> (r: Box<Avl>)
        requires
            self.heights_bounded(i32::MAX - 4),
        ensures
            r.ms() == self.ms(),
            self.ordered() ==> r.ordered(),
            (Avl::opt_heights_ok(self.left) && Avl::opt_heights_ok(self.right)) ==> (
            Avl::opt_heights_ok(r.left) && Avl::opt_heights_ok(r.right)),
            forall|b: int| #[trigger] self.heights_bounded(b) ==> r.heights_bounded(b + 4),
    {
        let mut this = self;
        let bf = this.balance_factor();
        if bf > 1 {
            proof {
                lemma_opt_bounded_stored(self.left, i32::MAX - 4);
                lemma_opt_bounded_stored(self.right, i32::MAX - 4);
            }
            let left = this.left.take();
            match left {
                None => vstd::pervasive::unreached(),
                Some(child) => {
                    if child.balance_factor() > 0 {
                        this.left = Some(child);
                        proof {
                            if Avl::opt_heights_ok(self.left) && Avl::opt_heights_ok(self.right) {
                                assert((*child).heights_ok());
                                assert(Avl::opt_heights_ok((*child).left));
                                assert(Avl::opt_heights_ok((*child).right));
                            }
                            lemma_bounded_mono(this, i32::MAX - 4, i32::MAX - 2);
                            assert forall|b: int| #[trigger] self.heights_bounded(b)
                                implies this.heights_bounded(b + 2) by {
                                lemma_bounded_mono(this, b, b + 2);
                            }
                        }
                        this.right_rotate()
                    } else {
                        proof {
                            assert((*child).heights_bounded(i32::MAX - 4));
                            lemma_bounded_mono(*child, i32::MAX - 4, i32::MAX - 2);
                        }
                        let rotated = child.left_rotate();
                        proof {
                            assert(rotated.heights_bounded(i32::MAX - 2));
                        }
                        this.left = Some(rotated);
                        proof {
                            if self.right is Some {
                                lemma_bounded_mono(*self.right->0, i32::MAX - 4, i32::MAX - 2);
                            }
                            assert(this.heights_bounded(i32::MAX - 2));
                            assert(Avl::opt_ms(this.left) == (*child).ms());
                            assert(Avl::opt_ms(self.left) == (*child).ms());
                            assert(this.ms() =~= self.ms());
                            if self.ordered() {
                                assert forall|x: i64| Avl::opt_ms(this.left).contains(x) implies x
                                    <= this.value by {
                                    assert(Avl::opt_ms(self.left).contains(x));
                                }
                                assert(this.ordered());
                            }
                            if Avl::opt_heights_ok(self.left) && Avl::opt_heights_ok(self.right) {
                                assert((*child).heights_ok());
                                if (*child).right is Some {
                                    assert((*(*child).right->0).heights_ok());
                                    assert(Avl::opt_heights_ok((*(*child).right->0).left));
                                    assert(Avl::opt_heights_ok((*(*child).right->0).right));
                                }
                                assert(Avl::opt_heights_ok((*child).left));
                                assert(Avl::opt_heights_ok(rotated.left));
                                assert(Avl::opt_heights_ok(rotated.right));
                            }
                            assert forall|b: int| #[trigger] self.heights_bounded(b)
                                implies this.heights_bounded(b + 2) by {
                                assert((*child).heights_bounded(b));
                                assert(rotated.heights_bounded(b + 2));
                                if self.right is Some {
                                    lemma_bounded_mono(*self.right->0, b, b + 2);
                                }
                            }
                        }
                        this.right_rotate()
                    }
                }
            }
        } else if bf < -1 {
            proof {
                lemma_opt_bounded_stored(self.left, i32::MAX - 4);
                lemma_opt_bounded_stored(self.right, i32::MAX - 4);
            }
            let right = this.right.take();
            match right {
                None => vstd::pervasive::unreached(),
                Some(child) => {
                    if child.balance_factor() < 0 {
                        this.right = Some(child);
                        proof {
                            if Avl::opt_heights_ok(self.left) && Avl::opt_heights_ok(self.right) {
                                assert((*child).heights_ok());
                                assert(Avl::opt_heights_ok((*child).left));
                                assert(Avl::opt_heights_ok((*child).right));
                            }
                            lemma_bounded_mono(this, i32::MAX - 4, i32::MAX - 2);
                            assert forall|b: int| #[trigger] self.heights_bounded(b)
                                implies this.heights_bounded(b + 2) by {
                                lemma_bounded_mono(this, b, b + 2);
                            }
                        }
                        this.left_rotate()
                    } else {
                        proof {
                            assert((*child).heights_bounded(i32::MAX - 4));
                            lemma_bounded_mono(*child, i32::MAX - 4, i32::MAX - 2);
                        }
                        let rotated = child.right_rotate();
                        proof {
                            assert(rotated.heights_bounded(i32::MAX - 2));
                        }
                        this.right = Some(rotated);
                        proof {
                            if self.left is Some {
                                lemma_bounded_mono(*self.left->0, i32::MAX - 4, i32::MAX - 2);
                            }
                            assert(this.heights_bounded(i32::MAX - 2));
                            assert(Avl::opt_ms(this.right) == (*child).ms());
                            assert(Avl::opt_ms(self.right) == (*child).ms());
                            assert(this.ms() =~= self.ms());
                            if self.ordered() {
                                assert forall|x: i64| Avl::opt_ms(this.right).contains(x) implies x
                                    >= this.value by {
                                    assert(Avl::opt_ms(self.right).contains(x));
                                }
                                assert(this.ordered());
                            }
                            if Avl::opt_heights_ok(self.left) && Avl::opt_heights_ok(self.right) {
                                assert((*child).heights_ok());
                                if (*child).left is Some {
                                    assert((*(*child).left->0).heights_ok());
                                    assert(Avl::opt_heights_ok((*(*child).left->0).left));
                                    assert(Avl::opt_heights_ok((*(*child).left->0).right));
                                }
                                assert(Avl::opt_heights_ok((*child).right));
                                assert(Avl::opt_heights_ok(rotated.left));
                                assert(Avl::opt_heights_ok(rotated.right));
                            }
                            assert forall|b: int| #[trigger] self.heights_bounded(b)
                                implies this.heights_bounded(b + 2) by {
                                assert((*child).heights_bounded(b));
                                assert(rotated.heights_bounded(b + 2));
                                if self.left is Some {
                                    lemma_bounded_mono(*self.left->0, b, b + 2);
                                }
                            }
                        }
                        this.left_rotate()
                    }
                }
            }
        } else {
            proof {
                assert forall|b: int| #[trigger] self.heights_bounded(b) implies this.heights_bounded(
                    b + 4,
                ) by {
                    lemma_bounded_mono(this, b, b + 4);
                }
            }
            Box::new(this)
        }
    }

    /// Inserts a value: equal or smaller values descend to the left,
    /// larger ones to the right; the subtree is rebalanced and the stored
    /// height of its root recomputed on the way back up. The length bound
    /// keeps every stored height comfortably inside `i32`.
    pub fn insert(self, new_value: i64) -> (r: Avl)
        requires
            self.ordered(),
            self.heights_ok(),
            self.ms().len() + 16 < i32::MAX,
        ensures
            r.ms() == self.ms().insert(new_value),
            r.ordered(),
            r.heights_ok(),
        decreases self,
    {
        let mut this = self;
        proof {
            assert(self.ms().len() == Avl::opt_ms(self.left).len() + Avl::opt_ms(self.right).len()
                + 1);
        }
        if this.value < new_value {
            let updated = insert(this.right.take(), new_value);
            this.right = updated;
            proof {
                assert(this.ms() =~= self.ms().insert(new_value));
                assert forall|x: i64| Avl::opt_ms(this.right).contains(x) implies x
                    >= this.value by {
                    if !Avl::opt_ms(self.right).contains(x) {
                        assert(x == new_value);
                    }
                }
                assert(this.ordered());
            }
        } else {
            let updated = insert(this.left.take(), new_value);
            this.left = updated;
            proof {
                assert(this.ms() =~= self.ms().insert(new_value));
                assert forall|x: i64| Avl::opt_ms(this.left).contains(x) implies x
                    <= this.value by {
                    if !Avl::opt_ms(self.left).contains(x) {
                        assert(x == new_value);
                    }
                }
                assert(this.ordered());
            }
        }
        proof {
            assert(this.ms().len() == self.ms().len() + 1);
            lemma_real_height_lt_len(self);
            if this.left is Some {
                lemma_heights_ok_bounded(*this.left->0, Avl::opt_ms(this.left).len() as int);
                lemma_bounded_mono(
                    *this.left->0,
                    Avl::opt_ms(this.left).len() as int,
                    i32::MAX - 4,
                );
            }
            if this.right is Some {
                lemma_heights_ok_bounded(*this.right->0, Avl::opt_ms(this.right).len() as int);
                lemma_bounded_mono(
                    *this.right->0,
                    Avl::opt_ms(this.right).len() as int,
                    i32::MAX - 4,
                );
            }
            assert(this.heights_bounded(i32::MAX - 4));
        }
        let ghost mid = this;
        let mut node = this.rotate();
        proof {
            assert(node.ms().len() == self.ms().len() + 1);
            assert(node.ms().len() == Avl::opt_ms(node.left).len() + Avl::opt_ms(node.right).len()
                + 1);
            if node.left is Some {
                assert((*node.left->0).heights_ok());
                lemma_real_height_lt_len(*node.left->0);
            }
            if node.right is Some {
                assert((*node.right->0).heights_ok());
                lemma_real_height_lt_len(*node.right->0);
            }
            assert(opt_stored(node.left) < i32::MAX);
            assert(opt_stored(node.right) < i32::MAX);
        }
        node.update_height();
        proof {
            lemma_opt_ok_stored(node.left);
            lemma_opt_ok_stored(node.right);
            assert(node.heights_ok());
            assert(node.ms() =~= mid.ms());
            if mid.ordered() {
                assert(node.ordered());
            }
        }
        *node
    }

    /// Removal is not offered: the call reports `false` and leaves the
    /// tree untouched.
    pub fn delete(&mut self, value: i64) -> (r: bool)
        ensures
            !r,
            *final(self) == *old(self),
    {
        let _ = value;
        false
    }
}

/// The stored height of an optional subtree; a missing child counts -1.
fn get_height(node: &AvlBoxOption) -> (r: i32)
    ensures
        r as int == opt_stored(*node),
{
    match node {
        None => -1,
        Some(n) => n.height,
    }
}

/// Recomputes the stored height of an optional subtree's root, if any.
fn update_height(node: &mut AvlBoxOption)
    requires
        match *old(node) {
            None => true,
            Some(n) => opt_stored(n.left) < i32::MAX && opt_stored(n.right) < i32::MAX,
        },
    ensures
        *old(node) is None ==> *final(node) == *old(node),
        *old(node) is Some ==> *final(node) is Some && {
            let pre = *((*old(node))->0);
            let post = *((*final(node))->0);
            &&& post == (Avl { height: post.height, ..pre })
            &&& post.height as int == 1 + max_int(opt_stored(pre.left), opt_stored(pre.right))
        },
{
    match node {
        None => {}
        Some(n) => {
            n.update_height();
        }
    }
}

/// Inserts into an optional subtree, growing a fresh leaf where none
/// stood, and rebalances the new root.
fn insert(root_opt: AvlBoxOption, new_value: i64) -> (r: AvlBoxOption)
    requires
        Avl::opt_ordered(root_opt),
        Avl::opt_heights_ok(root_opt),
        Avl::opt_ms(root_opt).len() + 16 < i32::MAX,
    ensures
        Avl::opt_ms(r) == Avl::opt_ms(root_opt).insert(new_value),
        Avl::opt_ordered(r),
        Avl::opt_heights_ok(r),
    decreases root_opt,
{
    match root_opt {
        None => {
            let r = Some(Avl::new(new_value));
            proof {
                assert(Avl::opt_ms(r) =~= Avl::opt_ms(root_opt).insert(new_value));
            }
            r
        }
        Some(root) => {
            let new_root = Avl::insert(*root, new_value);
            proof {
                lemma_heights_ok_bounded(new_root, new_root.ms().len() as int);
                lemma_bounded_mono(new_root, new_root.ms().len() as int, i32::MAX - 4);
            }
            let ghost mid = new_root;
            let mut new_root = new_root.rotate();
            proof {
                assert(new_root.ms().len() == Avl::opt_ms(new_root.left).len() + Avl::opt_ms(
                    new_root.right,
                ).len() + 1);
                if new_root.left is Some {
                    assert((*new_root.left->0).heights_ok());
                    lemma_real_height_lt_len(*new_root.left->0);
                }
                if new_root.right is Some {
                    assert((*new_root.right->0).heights_ok());
                    lemma_real_height_lt_len(*new_root.right->0);
                }
                assert(opt_stored(new_root.left) < i32::MAX);
                assert(opt_stored(new_root.right) < i32::MAX);
            }
            new_root.update_height();
            proof {
                lemma_opt_ok_stored(new_root.left);
                lemma_opt_ok_stored(new_root.right);
                assert(new_root.heights_ok());
                assert(new_root.ms() =~= mid.ms());
                if mid.ordered() {
                    assert(new_root.ordered());
                }
            }
            Some(new_root)
        }
    }
}

/// Rebalances the root of an optional subtree and recomputes its stored
/// height.
fn rotate(root: AvlBoxOption) -> (r: AvlBoxOption)
    requires
        Avl::opt_heights_bounded(root, i32::MAX - 4),
    ensures
        Avl::opt_ms(r) == Avl::opt_ms(root),
        Avl::opt_ordered(root) ==> Avl::opt_ordered(r),
        Avl::opt_heights_ok(root) ==> Avl::opt_heights_ok(r),
{
    match root {
        None => None,
        Some(node) => {
            proof {
                assert((*root->0).heights_bounded(i32::MAX - 4));
            }
            let ghost pre = *node;
            let mut node = node.rotate();
            proof {
                assert(node.heights_bounded(i32::MAX as int));
                lemma_opt_bounded_stored(node.left, i32::MAX as int);
                lemma_opt_bounded_stored(node.right, i32::MAX as int);
            }
            node.update_height();
            proof {
                if Avl::opt_heights_ok(root) {
                    assert(Avl::opt_heights_ok(pre.left));
                    assert(Avl::opt_heights_ok(pre.right));
                    lemma_opt_ok_stored(node.left);
                    lemma_opt_ok_stored(node.right);
                    assert(node.heights_ok());
                }
                assert(node.ms() =~= pre.ms());
                if pre.ordered() {
                    assert(node.ordered());
                }
            }
            Some(node)
        }
    }
}

/// Whether `value` is in an optional subtree.
fn search(node: &AvlBoxOption, value: &i64) -> (r: bool)
    requires
        Avl::opt_ordered(*node),
    ensures
        r == Avl::opt_ms(*node).contains(*value),
    decreases *node,
{
    match node {
        None => false,
        Some(n) => n.search(value),
    }
}

} // verus!
