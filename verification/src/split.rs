//! Split and close operations on the layout tree.
//!
//! Both operations are pure functions of the tree: they either succeed
//! and return the edited tree, or fail and leave the caller's tree
//! unchanged.

use vstd::prelude::*;
use vstd::seq_lib::lemma_no_dup_in_concat;

use crate::error::{MuxError, MuxResult};
use crate::layout::{
    lemma_contains_iff_seq, pane_ids_seq, ratios_bounded, tree_contains, tree_count, tree_wf,
    Direction, LayoutNode, PaneId,
};

verus! {

/// The tree after replacing the leaf holding `target` with a split of
/// ratio one half whose first child is that leaf and whose second
/// child is a new leaf for `new_id`. Meaningful when the tree holds
/// `target`; at the first leaf holding it in depth-first order.
pub open spec fn spec_split(
    t: LayoutNode,
    target: PaneId,
    direction: Direction,
    new_id: PaneId,
) -> LayoutNode
    decreases t,
{
    match t {
        LayoutNode::Leaf { pane_id } => LayoutNode::Split {
            direction,
            ratio: 500,
            first: Box::new(LayoutNode::Leaf { pane_id }),
            second: Box::new(LayoutNode::Leaf { pane_id: new_id }),
        },
        LayoutNode::Split { direction: d, ratio, first, second } => {
            if tree_contains(*first, target) {
                LayoutNode::Split {
                    direction: d,
                    ratio,
                    first: Box::new(spec_split(*first, target, direction, new_id)),
                    second,
                }
            } else {
                LayoutNode::Split {
                    direction: d,
                    ratio,
                    first,
                    second: Box::new(spec_split(*second, target, direction, new_id)),
                }
            }
        },
    }
}

/// The tree after removing the first leaf holding `target` in
/// depth-first order: its parent split collapses into the sibling,
/// and `None` means the removed leaf was the whole tree. Meaningful
/// when the tree holds `target`.
pub open spec fn spec_close(t: LayoutNode, target: PaneId) -> Option<LayoutNode>
    decreases t,
{
    match t {
        LayoutNode::Leaf { .. } => None,
        LayoutNode::Split { direction, ratio, first, second } => {
            if tree_contains(*first, target) {
                match spec_close(*first, target) {
                    None => Some(*second),
                    Some(new_first) => Some(
                        LayoutNode::Split {
                            direction,
                            ratio,
                            first: Box::new(new_first),
                            second,
                        },
                    ),
                }
            } else {
                match spec_close(*second, target) {
                    None => Some(*first),
                    Some(new_second) => Some(
                        LayoutNode::Split {
                            direction,
                            ratio,
                            first,
                            second: Box::new(new_second),
                        },
                    ),
                }
            }
        },
    }
}

/// What a split does to the tree's panes: one more pane, the new id
/// joins the id set, ratios stay bounded, and distinct ids stay
/// distinct when the new id is fresh.
pub proof fn lemma_split_props(t: LayoutNode, target: PaneId, direction: Direction, new_id: PaneId)
    requires
        tree_contains(t, target),
    ensures
        tree_count(spec_split(t, target, direction, new_id)) == tree_count(t) + 1,
        forall|id: PaneId|
            tree_contains(spec_split(t, target, direction, new_id), id) <==> (tree_contains(t, id)
                || id == new_id),
        ratios_bounded(t) ==> ratios_bounded(spec_split(t, target, direction, new_id)),
        tree_wf(t) && !tree_contains(t, new_id) ==> tree_wf(
            spec_split(t, target, direction, new_id),
        ),
    decreases t,
{
    let t2 = spec_split(t, target, direction, new_id);
    match t {
        LayoutNode::Leaf { pane_id } => {
            let fl = LayoutNode::Leaf { pane_id };
            let nl = LayoutNode::Leaf { pane_id: new_id };
            assert(t2 == (LayoutNode::Split {
                direction,
                ratio: 500,
                first: Box::new(fl),
                second: Box::new(nl),
            }));
            assert(pane_ids_seq(fl) == seq![pane_id]);
            assert(pane_ids_seq(nl) == seq![new_id]);
            assert(pane_ids_seq(t2) == seq![pane_id] + seq![new_id]);
            assert(pane_ids_seq(t2).len() == 2);
            assert(pane_ids_seq(t).len() == 1);
            assert forall|id: PaneId| tree_contains(t2, id) <==> (tree_contains(t, id) || id
                == new_id) by {
                assert(tree_contains(t2, id) == (tree_contains(fl, id) || tree_contains(nl, id)));
                assert(tree_contains(fl, id) == (pane_id == id));
                assert(tree_contains(nl, id) == (new_id == id));
            }
            assert(ratios_bounded(fl) && ratios_bounded(nl));
            assert(ratios_bounded(t) ==> ratios_bounded(t2));
            if tree_wf(t) && !tree_contains(t, new_id) {
                assert(pane_ids_seq(t2)[0] == pane_id && pane_ids_seq(t2)[1] == new_id);
                assert(pane_ids_seq(t2).no_duplicates());
            }
        },
        LayoutNode::Split { direction: d, ratio, first, second } => {
            let a = pane_ids_seq(*first);
            let b = pane_ids_seq(*second);
            assert(pane_ids_seq(t) == a + b);
            if tree_contains(*first, target) {
                lemma_split_props(*first, target, direction, new_id);
                let f2 = spec_split(*first, target, direction, new_id);
                let a2 = pane_ids_seq(f2);
                assert(t2 == (LayoutNode::Split {
                    direction: d,
                    ratio,
                    first: Box::new(f2),
                    second,
                }));
                assert(pane_ids_seq(t2) == a2 + b);
                assert forall|id: PaneId| tree_contains(t2, id) <==> (tree_contains(t, id) || id
                    == new_id) by {
                    assert(tree_contains(t2, id) == (tree_contains(f2, id) || tree_contains(
                        *second,
                        id,
                    )));
                    assert(tree_contains(t, id) == (tree_contains(*first, id) || tree_contains(
                        *second,
                        id,
                    )));
                }
                if tree_wf(t) && !tree_contains(t, new_id) {
                    lemma_concat_wf_parts(a, b);
                    lemma_contains_iff_seq(*first, new_id);
                    assert(tree_wf(*first));
                    assert(a2.no_duplicates());
                    assert forall|i: int, j: int|
                        0 <= i < a2.len() && 0 <= j < b.len() implies a2[i] != b[j] by {
                        lemma_contains_iff_seq(f2, b[j]);
                        lemma_contains_iff_seq(*first, b[j]);
                        lemma_contains_iff_seq(*second, b[j]);
                        if a2[i] == b[j] {
                            assert(a2.contains(b[j]));
                        }
                    }
                    lemma_no_dup_in_concat(a2, b);
                }
            } else {
                lemma_split_props(*second, target, direction, new_id);
                let s2 = spec_split(*second, target, direction, new_id);
                let b2 = pane_ids_seq(s2);
                assert(t2 == (LayoutNode::Split {
                    direction: d,
                    ratio,
                    first,
                    second: Box::new(s2),
                }));
                assert(pane_ids_seq(t2) == a + b2);
                assert forall|id: PaneId| tree_contains(t2, id) <==> (tree_contains(t, id) || id
                    == new_id) by {
                    assert(tree_contains(t2, id) == (tree_contains(*first, id) || tree_contains(
                        s2,
                        id,
                    )));
                    assert(tree_contains(t, id) == (tree_contains(*first, id) || tree_contains(
                        *second,
                        id,
                    )));
                }
                if tree_wf(t) && !tree_contains(t, new_id) {
                    lemma_concat_wf_parts(a, b);
                    lemma_contains_iff_seq(*second, new_id);
                    assert(tree_wf(*second));
                    assert(b2.no_duplicates());
                    assert forall|i: int, j: int|
                        0 <= i < a.len() && 0 <= j < b2.len() implies a[i] != b2[j] by {
                        lemma_contains_iff_seq(s2, a[i]);
                        lemma_contains_iff_seq(*first, a[i]);
                        lemma_contains_iff_seq(*second, a[i]);
                        if a[i] == b2[j] {
                            assert(b2.contains(a[i]));
                        }
                    }
                    lemma_no_dup_in_concat(a, b2);
                }
            }
        },
    }
}

/// Distinctness of a concatenation passes to its parts.
proof fn lemma_concat_wf_parts(a: Seq<PaneId>, b: Seq<PaneId>)
    requires
        (a + b).no_duplicates(),
    ensures
        a.no_duplicates(),
        b.no_duplicates(),
        forall|i: int, j: int| 0 <= i < a.len() && 0 <= j < b.len() ==> a[i] != b[j],
{
    assert forall|i: int, j: int|
        (0 <= i < a.len() && 0 <= j < a.len() && i != j) implies a[i] != a[j] by {
        assert((a + b)[i] == a[i] && (a + b)[j] == a[j]);
    }
    assert forall|i: int, j: int|
        (0 <= i < b.len() && 0 <= j < b.len() && i != j) implies b[i] != b[j] by {
        assert((a + b)[a.len() + i] == b[i] && (a + b)[a.len() + j] == b[j]);
    }
    assert forall|i: int, j: int|
        0 <= i < a.len() && 0 <= j < b.len() implies a[i] != b[j] by {
        assert((a + b)[i] == a[i] && (a + b)[a.len() + j] == b[j]);
    }
}

/// What a close does to the tree's panes: the target leaves the id
/// set, every other id stays, the count drops by one, and
/// well-formedness is preserved. `None` comes exactly from closing
/// the sole pane of a single-leaf tree.
pub proof fn lemma_close_props(t: LayoutNode, target: PaneId)
    requires
        tree_wf(t),
        tree_contains(t, target),
    ensures
        spec_close(t, target) is None ==> t == (LayoutNode::Leaf { pane_id: target }),
        spec_close(t, target) matches Some(t2) ==> {
            &&& tree_count(t2) == tree_count(t) - 1
            &&& tree_wf(t2)
            &&& !tree_contains(t2, target)
            &&& forall|id: PaneId|
                id != target ==> (tree_contains(t2, id) <==> tree_contains(t, id))
        },
    decreases t,
{
    match t {
        LayoutNode::Leaf { pane_id } => {
            assert(pane_id == target);
            assert(t == (LayoutNode::Leaf { pane_id: target }));
            assert(spec_close(t, target) is None);
        },
        LayoutNode::Split { direction, ratio, first, second } => {
            let a = pane_ids_seq(*first);
            let b = pane_ids_seq(*second);
            assert(pane_ids_seq(t) == a + b);
            lemma_concat_wf_parts(a, b);
            assert(tree_wf(*first) && tree_wf(*second));
            lemma_contains_iff_seq(*first, target);
            lemma_contains_iff_seq(*second, target);
            // Under distinct ids, `target` cannot live in both halves.
            let in_first = tree_contains(*first, target);
            if in_first && tree_contains(*second, target) {
                let i = choose|i: int| 0 <= i < a.len() && a[i] == target;
                let j = choose|j: int| 0 <= j < b.len() && b[j] == target;
                assert((a + b)[i] == (a + b)[a.len() + j]);
                assert(false);
            }
            if in_first {
                lemma_close_props(*first, target);
                match spec_close(*first, target) {
                    None => {
                        assert(spec_close(t, target) == Some(*second));
                        assert(*first == (LayoutNode::Leaf { pane_id: target }));
                        assert(a == seq![target]);
                        assert(tree_count(*second) == tree_count(t) - 1);
                        assert forall|id: PaneId| id != target implies (tree_contains(
                            *second,
                            id,
                        ) <==> tree_contains(t, id)) by {
                            assert(tree_contains(t, id) == (tree_contains(*first, id)
                                || tree_contains(*second, id)));
                            assert(tree_contains(*first, id) == (target == id));
                        }
                    },
                    Some(f2) => {
                        let t3 = LayoutNode::Split {
                            direction,
                            ratio,
                            first: Box::new(f2),
                            second,
                        };
                        assert(spec_close(t, target) == Some(t3));
                        let a2 = pane_ids_seq(f2);
                        assert(pane_ids_seq(t3) == a2 + b);
                        assert forall|i: int, j: int|
                            0 <= i < a2.len() && 0 <= j < b.len() implies a2[i] != b[j] by {
                            lemma_contains_iff_seq(f2, b[j]);
                            lemma_contains_iff_seq(*first, b[j]);
                            lemma_contains_iff_seq(*second, b[j]);
                            if a2[i] == b[j] {
                                assert(a2.contains(b[j]));
                            }
                        }
                        lemma_no_dup_in_concat(a2, b);
                        assert forall|id: PaneId| id != target implies (tree_contains(t3, id)
                            <==> tree_contains(t, id)) by {
                            assert(tree_contains(t3, id) == (tree_contains(f2, id)
                                || tree_contains(*second, id)));
                            assert(tree_contains(t, id) == (tree_contains(*first, id)
                                || tree_contains(*second, id)));
                        }
                        assert(tree_contains(t3, target) == (tree_contains(f2, target)
                            || tree_contains(*second, target)));
                        assert(!tree_contains(t3, target));
                    },
                }
            } else {
                lemma_close_props(*second, target);
                match spec_close(*second, target) {
                    None => {
                        assert(spec_close(t, target) == Some(*first));
                        assert(*second == (LayoutNode::Leaf { pane_id: target }));
                        assert(b == seq![target]);
                        assert(tree_count(*first) == tree_count(t) - 1);
                        assert(!tree_contains(*first, target));
                        assert forall|id: PaneId| id != target implies (tree_contains(
                            *first,
                            id,
                        ) <==> tree_contains(t, id)) by {
                            assert(tree_contains(t, id) == (tree_contains(*first, id)
                                || tree_contains(*second, id)));
                            assert(tree_contains(*second, id) == (target == id));
                        }
                    },
                    Some(s2) => {
                        let t3 = LayoutNode::Split {
                            direction,
                            ratio,
                            first,
                            second: Box::new(s2),
                        };
                        assert(spec_close(t, target) == Some(t3));
                        let b2 = pane_ids_seq(s2);
                        assert(pane_ids_seq(t3) == a + b2);
                        assert forall|i: int, j: int|
                            0 <= i < a.len() && 0 <= j < b2.len() implies a[i] != b2[j] by {
                            lemma_contains_iff_seq(s2, a[i]);
                            lemma_contains_iff_seq(*first, a[i]);
                            lemma_contains_iff_seq(*second, a[i]);
                            if a[i] == b2[j] {
                                assert(b2.contains(a[i]));
                            }
                        }
                        lemma_no_dup_in_concat(a, b2);
                        assert forall|id: PaneId| id != target implies (tree_contains(t3, id)
                            <==> tree_contains(t, id)) by {
                            assert(tree_contains(t3, id) == (tree_contains(*first, id)
                                || tree_contains(s2, id)));
                            assert(tree_contains(t, id) == (tree_contains(*first, id)
                                || tree_contains(*second, id)));
                        }
                        assert(tree_contains(t3, target) == (tree_contains(*first, target)
                            || tree_contains(s2, target)));
                        assert(!tree_contains(t3, target));
                    },
                }
            }
        },
    }
}

/// Split-then-close round-trip: closing the pane a split just created
/// restores the original tree exactly.
pub proof fn lemma_split_close_roundtrip(
    t: LayoutNode,
    target: PaneId,
    direction: Direction,
    new_id: PaneId,
)
    requires
        tree_wf(t),
        tree_contains(t, target),
        !tree_contains(t, new_id),
    ensures
        spec_close(spec_split(t, target, direction, new_id), new_id) == Some(t),
    decreases t,
{
    let t2 = spec_split(t, target, direction, new_id);
    match t {
        LayoutNode::Leaf { pane_id } => {
            let fl = LayoutNode::Leaf { pane_id };
            let nl = LayoutNode::Leaf { pane_id: new_id };
            assert(t2 == (LayoutNode::Split {
                direction,
                ratio: 500,
                first: Box::new(fl),
                second: Box::new(nl),
            }));
            assert(!tree_contains(fl, new_id));
            assert(spec_close(nl, new_id) is None);
            assert(spec_close(t2, new_id) == Some(fl));
            assert(t == fl);
        },
        LayoutNode::Split { direction: d, ratio, first, second } => {
            lemma_concat_wf_parts(pane_ids_seq(*first), pane_ids_seq(*second));
            assert(tree_wf(*first) && tree_wf(*second));
            if tree_contains(*first, target) {
                lemma_split_close_roundtrip(*first, target, direction, new_id);
                lemma_split_props(*first, target, direction, new_id);
                let f2 = spec_split(*first, target, direction, new_id);
                assert(t2 == (LayoutNode::Split {
                    direction: d,
                    ratio,
                    first: Box::new(f2),
                    second,
                }));
                assert(tree_contains(f2, new_id));
                assert(spec_close(f2, new_id) == Some(*first));
                assert(spec_close(t2, new_id) == Some(
                    LayoutNode::Split {
                        direction: d,
                        ratio,
                        first: Box::new(*first),
                        second,
                    },
                ));
                assert(Box::new(*first) == first);
            } else {
                lemma_split_close_roundtrip(*second, target, direction, new_id);
                lemma_split_props(*second, target, direction, new_id);
                let s2 = spec_split(*second, target, direction, new_id);
                assert(t2 == (LayoutNode::Split {
                    direction: d,
                    ratio,
                    first,
                    second: Box::new(s2),
                }));
                assert(!tree_contains(*first, new_id));
                assert(spec_close(s2, new_id) == Some(*second));
                assert(spec_close(t2, new_id) == Some(
                    LayoutNode::Split {
                        direction: d,
                        ratio,
                        first,
                        second: Box::new(*second),
                    },
                ));
                assert(Box::new(*second) == second);
            }
        },
    }
}

enum SplitResult {
    Replaced(LayoutNode),
    NotFound(LayoutNode),
}

fn split_inner(
    node: LayoutNode,
    target: PaneId,
    direction: Direction,
    new_id: PaneId,
) -> (r: SplitResult)
    ensures
        tree_contains(node, target) ==> r == SplitResult::Replaced(
            spec_split(node, target, direction, new_id),
        ),
        !tree_contains(node, target) ==> r == SplitResult::NotFound(node),
    decreases node,
{
    match node {
        LayoutNode::Leaf { pane_id } => {
            if pane_id.0 == target.0 {
                let new_node = LayoutNode::Split {
                    direction,
                    ratio: 500,
                    first: Box::new(LayoutNode::Leaf { pane_id }),
                    second: Box::new(LayoutNode::Leaf { pane_id: new_id }),
                };
                SplitResult::Replaced(new_node)
            } else {
                SplitResult::NotFound(LayoutNode::Leaf { pane_id })
            }
        },
        LayoutNode::Split { direction: d, ratio, first, second } => {
            match split_inner(*first, target, direction, new_id) {
                SplitResult::Replaced(new_first) => SplitResult::Replaced(
                    LayoutNode::Split {
                        direction: d,
                        ratio,
                        first: Box::new(new_first),
                        second,
                    },
                ),
                SplitResult::NotFound(orig_first) => {
                    match split_inner(*second, target, direction, new_id) {
                        SplitResult::Replaced(new_second) => SplitResult::Replaced(
                            LayoutNode::Split {
                                direction: d,
                                ratio,
                                first: Box::new(orig_first),
                                second: Box::new(new_second),
                            },
                        ),
                        SplitResult::NotFound(orig_second) => SplitResult::NotFound(
                            LayoutNode::Split {
                                direction: d,
                                ratio,
                                first: Box::new(orig_first),
                                second: Box::new(orig_second),
                            },
                        ),
                    }
                },
            }
        },
    }
}

/// Split the pane identified by `target` in the given `direction`.
///
/// Returns the updated tree and the new pane's id; when `target` is
/// absent the tree is rejected unchanged.
pub fn split_pane(
    tree: LayoutNode,
    target: PaneId,
    direction: Direction,
    new_id: PaneId,
) -> (r: MuxResult<(LayoutNode, PaneId)>)
    ensures
        tree_contains(tree, target) ==> r == Ok::<_, MuxError>(
            (spec_split(tree, target, direction, new_id), new_id),
        ),
        !tree_contains(tree, target) ==> r == Err::<(LayoutNode, PaneId), _>(
            MuxError::PaneNotFound(target.0),
        ),
{
    match split_inner(tree, target, direction, new_id) {
        SplitResult::Replaced(node) => Ok((node, new_id)),
        SplitResult::NotFound(_) => Err(MuxError::PaneNotFound(target.0)),
    }
}

enum CloseResult {
    Removed(Option<LayoutNode>),
    NotFound(LayoutNode),
}

fn close_inner(node: LayoutNode, target: PaneId) -> (r: CloseResult)
    ensures
        tree_contains(node, target) ==> r == CloseResult::Removed(spec_close(node, target)),
        !tree_contains(node, target) ==> r == CloseResult::NotFound(node),
    decreases node,
{
    match node {
        LayoutNode::Leaf { pane_id } => {
            if pane_id.0 == target.0 {
                CloseResult::Removed(None)
            } else {
                CloseResult::NotFound(LayoutNode::Leaf { pane_id })
            }
        },
        LayoutNode::Split { direction, ratio, first, second } => {
            match close_inner(*first, target) {
                CloseResult::Removed(None) => CloseResult::Removed(Some(*second)),
                CloseResult::Removed(Some(new_first)) => CloseResult::Removed(
                    Some(
                        LayoutNode::Split {
                            direction,
                            ratio,
                            first: Box::new(new_first),
                            second,
                        },
                    ),
                ),
                CloseResult::NotFound(orig_first) => match close_inner(*second, target) {
                    CloseResult::Removed(None) => CloseResult::Removed(Some(orig_first)),
                    CloseResult::Removed(Some(new_second)) => CloseResult::Removed(
                        Some(
                            LayoutNode::Split {
                                direction,
                                ratio,
                                first: Box::new(orig_first),
                                second: Box::new(new_second),
                            },
                        ),
                    ),
                    CloseResult::NotFound(orig_second) => CloseResult::NotFound(
                        LayoutNode::Split {
                            direction,
                            ratio,
                            first: Box::new(orig_first),
                            second: Box::new(orig_second),
                        },
                    ),
                },
            }
        },
    }
}

/// Close the pane identified by `target`.
///
/// Returns `Ok(None)` if the last pane was closed (tree is now
/// empty); when `target` is absent the tree is rejected unchanged.
pub fn close_pane(tree: LayoutNode, target: PaneId) -> (r: MuxResult<Option<LayoutNode>>)
    ensures
        tree_contains(tree, target) ==> r == Ok::<_, MuxError>(spec_close(tree, target)),
        !tree_contains(tree, target) ==> r == Err::<Option<LayoutNode>, _>(
            MuxError::PaneNotFound(target.0),
        ),
{
    match close_inner(tree, target) {
        CloseResult::Removed(remaining) => Ok(remaining),
        CloseResult::NotFound(_) => Err(MuxError::PaneNotFound(target.0)),
    }
}

} // verus!
