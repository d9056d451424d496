//! Range queries over a binary tree: collecting the values that fall
//! inside a closed interval, in the order the traversal visits them.

use vstd::prelude::*;

verus! {

/// A binary tree of integers supporting range queries.
pub struct RangeQueryTree {
    pub val: i32,
    pub left: Option<Box<RangeQueryTree>>,
    pub right: Option<Box<RangeQueryTree>>,
}

/// The values an in-range traversal of an optional subtree collects.
pub open spec fn opt_range_seq(node: Option<Box<RangeQueryTree>>, start: i32, end: i32) -> Seq<i32>
    decreases node,
{
    match node {
        None => Seq::empty(),
        Some(n) => range_seq(*n, start, end),
    }
}

/// The values the traversal collects from `tree`, in visiting order: a
/// node inside `[start, end]` is reported before its left and right
/// subtrees are visited — though a missing left child cuts the visit
/// short — while a node outside the interval only descends towards it.
pub open spec fn range_seq(tree: RangeQueryTree, start: i32, end: i32) -> Seq<i32>
    decreases tree,
{
    if start <= tree.val && tree.val <= end {
        match tree.left {
            None => seq![tree.val],
            Some(l) => seq![tree.val] + range_seq(*l, start, end) + opt_range_seq(
                tree.right,
                start,
                end,
            ),
        }
    } else if tree.val < start {
        opt_range_seq(tree.right, start, end)
    } else {
        opt_range_seq(tree.left, start, end)
    }
}

impl RangeQueryTree {
    /// A node with the given value and subtrees.
    pub fn new(new_val: i32, left: Option<RangeQueryTree>, right: Option<RangeQueryTree>) -> (r:
        RangeQueryTree)
        ensures
            r.val == new_val,
            left is Some ==> r.left == Some(Box::new(left->0)),
            left is None ==> r.left is None,
            right is Some ==> r.right == Some(Box::new(right->0)),
            right is None ==> r.right is None,
    {
        let left = match left {
            None => None,
            Some(data) => Some(Box::new(data)),
        };
        let right = match right {
            None => None,
            Some(data) => Some(Box::new(data)),
        };
        RangeQueryTree { val: new_val, left, right }
    }

    /// Collects the values in `[start, end]` that the traversal reaches,
    /// in visiting order. Every reported value lies inside the interval.
    pub fn range_query(&self, start: i32, end: i32) -> (v: Vec<i32>)
        ensures
            v@ == range_seq(*self, start, end),
            forall|k: int| 0 <= k < v@.len() ==> start <= #[trigger] v@[k] <= end,
    {
        let mut v: Vec<i32> = Vec::new();
        Self::inner_range_query(self, start, end, &mut v);
        proof {
            assert(Seq::<i32>::empty() + range_seq(*self, start, end) =~= range_seq(
                *self,
                start,
                end,
            ));
            lemma_range_seq_in_range(*self, start, end);
        }
        v
    }

    /// Appends the traversal's findings for `root` to `v`.
    fn inner_range_query(root: &RangeQueryTree, start: i32, end: i32, v: &mut Vec<i32>)
        ensures
            final(v)@ == old(v)@ + range_seq(*root, start, end),
        decreases *root,
    {
        if start <= root.val && root.val <= end {
            v.push(root.val);
            let left = match &root.left {
                None => {
                    proof {
                        assert(old(v)@.push(root.val) =~= old(v)@ + range_seq(*root, start, end));
                    }
                    return ;
                }
                Some(l) => &**l,
            };
            Self::inner_range_query(left, start, end, v);
            let right = match &root.right {
                None => {
                    proof {
                        assert(opt_range_seq(root.right, start, end) =~= Seq::<i32>::empty());
                        assert(old(v)@.push(root.val) + range_seq(*left, start, end) =~= old(v)@
                            + range_seq(*root, start, end));
                    }
                    return ;
                }
                Some(r) => &**r,
            };
            Self::inner_range_query(right, start, end, v);
            proof {
                assert(opt_range_seq(root.right, start, end) == range_seq(*right, start, end));
                assert(range_seq(*root, start, end) == seq![root.val] + range_seq(
                    *left,
                    start,
                    end,
                ) + opt_range_seq(root.right, start, end));
                assert(old(v)@.push(root.val) + range_seq(*left, start, end) + range_seq(
                    *right,
                    start,
                    end,
                ) =~= old(v)@ + range_seq(*root, start, end));
            }
        } else if root.val < start {
            proof {
                assert(range_seq(*root, start, end) == opt_range_seq(root.right, start, end));
            }
            match &root.right {
                None => {
                    proof {
                        assert(opt_range_seq(root.right, start, end) == Seq::<i32>::empty());
                        assert(old(v)@ + range_seq(*root, start, end) =~= old(v)@);
                    }
                }
                Some(r) => {
                    Self::inner_range_query(&**r, start, end, v);
                }
            }
        } else {
            proof {
                assert(range_seq(*root, start, end) == opt_range_seq(root.left, start, end));
            }
            match &root.left {
                None => {
                    proof {
                        assert(opt_range_seq(root.left, start, end) == Seq::<i32>::empty());
                        assert(old(v)@ + range_seq(*root, start, end) =~= old(v)@);
                    }
                }
                Some(l) => {
                    Self::inner_range_query(&**l, start, end, v);
                }
            }
        }
    }
}

/// Everything the traversal reports lies inside the queried interval.
pub proof fn lemma_range_seq_in_range(tree: RangeQueryTree, start: i32, end: i32)
    ensures
        forall|k: int| 0 <= k < range_seq(tree, start, end).len() ==> start <= #[trigger] range_seq(
            tree,
            start,
            end,
        )[k] <= end,
    decreases tree,
{
    let s = range_seq(tree, start, end);
    if start <= tree.val && tree.val <= end {
        match tree.left {
            None => {
                assert(s == seq![tree.val]);
                assert forall|k: int| 0 <= k < s.len() implies start <= #[trigger] s[k] <= end by {
                    assert(s[k] == tree.val);
                }
            }
            Some(l) => {
                lemma_range_seq_in_range(*l, start, end);
                let b = range_seq(*l, start, end);
                let c = opt_range_seq(tree.right, start, end);
                match tree.right {
                    None => {
                        assert(c == Seq::<i32>::empty());
                    }
                    Some(r) => {
                        lemma_range_seq_in_range(*r, start, end);
                        assert(c == range_seq(*r, start, end));
                    }
                }
                assert(s == seq![tree.val] + b + c);
                assert forall|k: int| 0 <= k < s.len() implies start <= #[trigger] s[k] <= end by {
                    if k == 0 {
                        assert(s[k] == tree.val);
                    } else if k < 1 + b.len() {
                        assert(s[k] == b[k - 1]);
                    } else {
                        assert(s[k] == c[k - 1 - b.len()]);
                    }
                }
            }
        }
    } else if tree.val < start {
        match tree.right {
            None => {
                assert(s == opt_range_seq(tree.right, start, end));
                assert(s.len() == 0);
            }
            Some(r) => {
                lemma_range_seq_in_range(*r, start, end);
                assert(s == opt_range_seq(tree.right, start, end));
                assert(opt_range_seq(tree.right, start, end) == range_seq(*r, start, end));
                assert forall|k: int| 0 <= k < s.len() implies start <= #[trigger] s[k] <= end by {
                    assert(s[k] == range_seq(*r, start, end)[k]);
                }
            }
        }
    } else {
        match tree.left {
            None => {
                assert(s == opt_range_seq(tree.left, start, end));
                assert(s.len() == 0);
            }
            Some(l) => {
                lemma_range_seq_in_range(*l, start, end);
                assert(s == opt_range_seq(tree.left, start, end));
                assert(opt_range_seq(tree.left, start, end) == range_seq(*l, start, end));
                assert forall|k: int| 0 <= k < s.len() implies start <= #[trigger] s[k] <= end by {
                    assert(s[k] == range_seq(*l, start, end)[k]);
                }
            }
        }
    }
}

} // verus!
