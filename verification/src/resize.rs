//! Resize operations on the layout tree.
//!
//! A resize adjusts the ratio of the outermost split whose two
//! children disagree about containing the target pane; the ratio is
//! clamped to `[MIN_RATIO, MAX_RATIO]` thousandths.

use vstd::prelude::*;

use crate::error::{MuxError, MuxResult};
use crate::layout::{
    pane_ids_seq, ratios_bounded, tree_contains, tree_wf, LayoutNode, PaneId,
};
use crate::{MAX_RATIO, MIN_RATIO};

verus! {

/// A candidate ratio forced into the allowed band.
pub open spec fn clamp_ratio(v: int) -> u16 {
    if v < MIN_RATIO as int {
        MIN_RATIO
    } else if v > MAX_RATIO as int {
        MAX_RATIO
    } else {
        v as u16
    }
}

/// The tree after resizing the split that contains `target` by
/// `delta` thousandths, and whether such a split was found. A leaf
/// tree has no split, so nothing is found there.
pub open spec fn spec_resize(t: LayoutNode, target: PaneId, delta: int) -> (LayoutNode, bool)
    decreases t,
{
    match t {
        LayoutNode::Leaf { .. } => (t, false),
        LayoutNode::Split { direction, ratio, first, second } => {
            let in_first = tree_contains(*first, target);
            let in_second = tree_contains(*second, target);
            if in_first && !in_second {
                (
                    LayoutNode::Split {
                        direction,
                        ratio: clamp_ratio(ratio + delta),
                        first,
                        second,
                    },
                    true,
                )
            } else if in_second && !in_first {
                (
                    LayoutNode::Split {
                        direction,
                        ratio: clamp_ratio(ratio - delta),
                        first,
                        second,
                    },
                    true,
                )
            } else {
                let rf = spec_resize(*first, target, delta);
                if rf.1 {
                    (
                        LayoutNode::Split {
                            direction,
                            ratio,
                            first: Box::new(rf.0),
                            second,
                        },
                        true,
                    )
                } else {
                    let rs = spec_resize(*second, target, delta);
                    (
                        LayoutNode::Split {
                            direction,
                            ratio,
                            first,
                            second: Box::new(rs.0),
                        },
                        rs.1,
                    )
                }
            }
        },
    }
}

/// What a resize does to the tree: the panes are untouched, every
/// ratio stays within bounds, a fruitless search leaves the tree
/// unchanged, and on a well-formed split tree holding the target the
/// search always succeeds.
pub proof fn lemma_resize_props(t: LayoutNode, target: PaneId, delta: int)
    ensures
        pane_ids_seq(spec_resize(t, target, delta).0) == pane_ids_seq(t),
        ratios_bounded(t) ==> ratios_bounded(spec_resize(t, target, delta).0),
        !spec_resize(t, target, delta).1 ==> spec_resize(t, target, delta).0 == t,
        tree_wf(t) && tree_contains(t, target) && (t matches LayoutNode::Split { .. })
            ==> spec_resize(t, target, delta).1,
    decreases t,
{
    match t {
        LayoutNode::Leaf { .. } => {
        },
        LayoutNode::Split { direction, ratio, first, second } => {
            let a = pane_ids_seq(*first);
            let b = pane_ids_seq(*second);
            assert(pane_ids_seq(t) == a + b);
            let in_first = tree_contains(*first, target);
            let in_second = tree_contains(*second, target);
            lemma_resize_props(*first, target, delta);
            lemma_resize_props(*second, target, delta);
            if in_first && !in_second {
                let t2 = spec_resize(t, target, delta).0;
                assert(pane_ids_seq(t2) == a + b);
            } else if in_second && !in_first {
                let t2 = spec_resize(t, target, delta).0;
                assert(pane_ids_seq(t2) == a + b);
            } else {
                let rf = spec_resize(*first, target, delta);
                if rf.1 {
                    assert(pane_ids_seq(spec_resize(t, target, delta).0) == pane_ids_seq(rf.0)
                        + b);
                } else {
                    let rs = spec_resize(*second, target, delta);
                    assert(pane_ids_seq(spec_resize(t, target, delta).0) == a + pane_ids_seq(
                        rs.0,
                    ));
                    if !rs.1 {
                        assert(rf.0 == *first && rs.0 == *second);
                        assert(spec_resize(t, target, delta).0 == (LayoutNode::Split {
                            direction,
                            ratio,
                            first: Box::new(*first),
                            second: Box::new(*second),
                        }));
                        assert(Box::new(*first) == first && Box::new(*second) == second);
                    }
                }
            }
            if tree_wf(t) && tree_contains(t, target) {
                // Distinct ids put the target in exactly one child, so
                // the root split itself is adjusted.
                if in_first && in_second {
                    crate::layout::lemma_contains_iff_seq(*first, target);
                    crate::layout::lemma_contains_iff_seq(*second, target);
                    let i = choose|i: int| 0 <= i < a.len() && a[i] == target;
                    let j = choose|j: int| 0 <= j < b.len() && b[j] == target;
                    assert((a + b)[i] == (a + b)[a.len() + j]);
                    assert(false);
                }
            }
        },
    }
}

fn resize_inner(node: LayoutNode, target: PaneId, delta: i32) -> (r: (LayoutNode, bool))
    ensures
        r == spec_resize(node, target, delta as int),
    decreases node,
{
    match node {
        LayoutNode::Leaf { pane_id } => (LayoutNode::Leaf { pane_id }, false),
        LayoutNode::Split { direction, ratio, first, second } => {
            let ghost first0 = *first;
            let in_first = first.find_pane(target);
            let in_second = second.find_pane(target);
            if in_first && !in_second {
                let v: i64 = ratio as i64 + delta as i64;
                let new_ratio: u16 = if v < MIN_RATIO as i64 {
                    MIN_RATIO
                } else if v > MAX_RATIO as i64 {
                    MAX_RATIO
                } else {
                    v as u16
                };
                (LayoutNode::Split { direction, ratio: new_ratio, first, second }, true)
            } else if in_second && !in_first {
                let v: i64 = ratio as i64 - delta as i64;
                let new_ratio: u16 = if v < MIN_RATIO as i64 {
                    MIN_RATIO
                } else if v > MAX_RATIO as i64 {
                    MAX_RATIO
                } else {
                    v as u16
                };
                (LayoutNode::Split { direction, ratio: new_ratio, first, second }, true)
            } else {
                let (new_first, found) = resize_inner(*first, target, delta);
                if found {
                    (
                        LayoutNode::Split {
                            direction,
                            ratio,
                            first: Box::new(new_first),
                            second,
                        },
                        true,
                    )
                } else {
                    let (new_second, found2) = resize_inner(*second, target, delta);
                    proof {
                        lemma_resize_props(first0, target, delta as int);
                    }
                    (
                        LayoutNode::Split {
                            direction,
                            ratio,
                            first: Box::new(new_first),
                            second: Box::new(new_second),
                        },
                        found2,
                    )
                }
            }
        },
    }
}

/// Resize the split that contains `target` by `delta` thousandths.
///
/// `delta` is added to the ratio of the split whose first child
/// contains `target`. Positive values grow the first child; negative
/// values shrink it. The ratio is clamped to
/// `[MIN_RATIO, MAX_RATIO]`. Without such a split (in particular on a
/// single-leaf tree) the tree is left unchanged and the pane is
/// reported as not found.
pub fn resize_pane(tree: &mut LayoutNode, target: PaneId, delta: i32) -> (r: MuxResult<()>)
    ensures
        *final(tree) == spec_resize(*old(tree), target, delta as int).0,
        r is Ok <==> spec_resize(*old(tree), target, delta as int).1,
        r is Err ==> r == Err::<(), _>(MuxError::PaneNotFound(target.0)) && *final(tree) == *old(
            tree,
        ),
{
    let mut owned = LayoutNode::Leaf { pane_id: PaneId(0) };
    core::mem::swap(tree, &mut owned);
    let (new_tree, found) = resize_inner(owned, target, delta);
    *tree = new_tree;
    if found {
        Ok(())
    } else {
        proof {
            lemma_resize_props(*old(tree), target, delta as int);
        }
        Err(MuxError::PaneNotFound(target.0))
    }
}

} // verus!
