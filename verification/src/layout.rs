//! Binary split tree for pane arrangement.

use vstd::prelude::*;

use crate::rect::{
    lemma_inside_disjoint, lemma_inside_trans, lemma_split_horizontal_tiles,
    lemma_split_vertical_tiles, rect_area, rect_disjoint, rect_in_range, rect_inside, Rect,
};

verus! {

/// Unique identifier for a pane (monotonic counter).
#[derive(Debug, Clone, Copy, PartialEq, Eq, Structural)]
pub struct PaneId(pub u32);

/// Direction of a split.
#[derive(Debug, Clone, Copy, PartialEq, Eq, Structural)]
pub enum Direction {
    /// Top/bottom split.
    Horizontal,
    /// Left/right split.
    Vertical,
}

/// A node in the binary layout tree.
#[derive(Debug)]
pub enum LayoutNode {
    /// A terminal leaf containing a single pane.
    Leaf {
        /// The pane occupying this leaf.
        pane_id: PaneId,
    },
    /// A split producing two children.
    Split {
        /// Direction of the split.
        direction: Direction,
        /// Thousandths of the parent dimension given to `first`.
        ratio: u16,
        /// First child (top or left).
        first: Box<LayoutNode>,
        /// Second child (bottom or right).
        second: Box<LayoutNode>,
    },
}

/// All pane ids of the tree, in depth-first order.
pub open spec fn pane_ids_seq(t: LayoutNode) -> Seq<PaneId>
    decreases t,
{
    match t {
        LayoutNode::Leaf { pane_id } => seq![pane_id],
        LayoutNode::Split { first, second, .. } => pane_ids_seq(*first) + pane_ids_seq(*second),
    }
}

/// The tree holds a pane with this id.
pub open spec fn tree_contains(t: LayoutNode, id: PaneId) -> bool
    decreases t,
{
    match t {
        LayoutNode::Leaf { pane_id } => pane_id == id,
        LayoutNode::Split { first, second, .. } => tree_contains(*first, id) || tree_contains(
            *second,
            id,
        ),
    }
}

/// Number of panes in the tree.
pub open spec fn tree_count(t: LayoutNode) -> nat {
    pane_ids_seq(t).len()
}

/// Every split ratio lies within the configured bounds.
pub open spec fn ratios_bounded(t: LayoutNode) -> bool
    decreases t,
{
    match t {
        LayoutNode::Leaf { .. } => true,
        LayoutNode::Split { ratio, first, second, .. } => {
            &&& crate::MIN_RATIO <= ratio <= crate::MAX_RATIO
            &&& ratios_bounded(*first)
            &&& ratios_bounded(*second)
        },
    }
}

/// Well-formed tree: bounded ratios and no pane id repeated.
pub open spec fn tree_wf(t: LayoutNode) -> bool {
    ratios_bounded(t) && pane_ids_seq(t).no_duplicates()
}

/// Membership agrees with the depth-first id sequence.
pub proof fn lemma_contains_iff_seq(t: LayoutNode, id: PaneId)
    ensures
        tree_contains(t, id) <==> pane_ids_seq(t).contains(id),
    decreases t,
{
    match t {
        LayoutNode::Leaf { pane_id } => {
            assert(pane_ids_seq(t) == seq![pane_id]);
            if pane_id == id {
                assert(pane_ids_seq(t)[0] == id);
            }
        },
        LayoutNode::Split { first, second, .. } => {
            lemma_contains_iff_seq(*first, id);
            lemma_contains_iff_seq(*second, id);
            let a = pane_ids_seq(*first);
            let b = pane_ids_seq(*second);
            if a.contains(id) {
                let i = choose|i: int| 0 <= i < a.len() && a[i] == id;
                assert((a + b)[i] == id);
            }
            if b.contains(id) {
                let i = choose|i: int| 0 <= i < b.len() && b[i] == id;
                assert((a + b)[a.len() + i] == id);
            }
            if (a + b).contains(id) {
                let i = choose|i: int| 0 <= i < (a + b).len() && (a + b)[i] == id;
                if i < a.len() {
                    assert(a[i] == id);
                } else {
                    assert(b[i - a.len()] == id);
                }
            }
        },
    }
}

/// Every tree holds at least one pane.
pub proof fn lemma_tree_count_pos(t: LayoutNode)
    ensures
        pane_ids_seq(t).len() >= 1,
    decreases t,
{
    match t {
        LayoutNode::Leaf { pane_id } => {
            assert(pane_ids_seq(t) == seq![pane_id]);
        },
        LayoutNode::Split { first, second, .. } => {
            lemma_tree_count_pos(*first);
            lemma_tree_count_pos(*second);
            assert(pane_ids_seq(t) == pane_ids_seq(*first) + pane_ids_seq(*second));
        },
    }
}

/// The pane id and screen rectangle of every leaf, in depth-first
/// order, when the tree is laid out over `area`.
pub open spec fn spec_rects(t: LayoutNode, area: Rect) -> Seq<(PaneId, Rect)>
    decreases t,
{
    match t {
        LayoutNode::Leaf { pane_id } => seq![(pane_id, area)],
        LayoutNode::Split { direction, ratio, first, second } => {
            let parts = if direction == Direction::Horizontal {
                area.spec_split_horizontal(ratio)
            } else {
                area.spec_split_vertical(ratio)
            };
            spec_rects(*first, parts.0) + spec_rects(*second, parts.1)
        },
    }
}

/// Sum of the areas of the listed rectangles.
pub open spec fn sum_areas(rs: Seq<(PaneId, Rect)>) -> int
    decreases rs.len(),
{
    if rs.len() == 0 {
        0
    } else {
        sum_areas(rs.drop_last()) + rect_area(rs.last().1)
    }
}

proof fn lemma_sum_areas_append(a: Seq<(PaneId, Rect)>, b: Seq<(PaneId, Rect)>)
    ensures
        sum_areas(a + b) == sum_areas(a) + sum_areas(b),
    decreases b.len(),
{
    if b.len() == 0 {
        assert(a + b =~= a);
    } else {
        lemma_sum_areas_append(a, b.drop_last());
        assert((a + b).drop_last() =~= a + b.drop_last());
        assert((a + b).last() == b.last());
    }
}

/// Every rectangle of `rs` lies inside `area` and stays representable.
pub open spec fn rects_inside(rs: Seq<(PaneId, Rect)>, area: Rect) -> bool {
    forall|i: int|
        0 <= i < rs.len() ==> rect_inside(#[trigger] rs[i].1, area) && rect_in_range(rs[i].1)
}

/// No two rectangles of `rs` overlap.
pub open spec fn rects_disjoint(rs: Seq<(PaneId, Rect)>) -> bool {
    forall|i: int, j: int|
        0 <= i < j < rs.len() ==> rect_disjoint(#[trigger] rs[i].1, #[trigger] rs[j].1)
}

/// The pane ids of `rs`, in order.
pub open spec fn rects_ids(rs: Seq<(PaneId, Rect)>) -> Seq<PaneId> {
    rs.map_values(|p: (PaneId, Rect)| p.0)
}

/// Geometric soundness of the layout computation, for every tree and
/// every representable area: the computed rectangles carry the tree's
/// pane ids in depth-first order, lie inside the area, are pairwise
/// non-overlapping, and tile the area perfectly.
pub proof fn lemma_rects_properties(t: LayoutNode, area: Rect)
    requires
        rect_in_range(area),
    ensures
        rects_ids(spec_rects(t, area)) =~= pane_ids_seq(t),
        rects_inside(spec_rects(t, area), area),
        rects_disjoint(spec_rects(t, area)),
        sum_areas(spec_rects(t, area)) == rect_area(area),
    decreases t,
{
    match t {
        LayoutNode::Leaf { pane_id } => {
            let rs = spec_rects(t, area);
            assert(rs == seq![(pane_id, area)]);
            assert(rects_ids(rs) =~= pane_ids_seq(t));
            assert(rs.drop_last() =~= Seq::<(PaneId, Rect)>::empty());
            assert(sum_areas(Seq::<(PaneId, Rect)>::empty()) == 0);
            assert(rs.last() == (pane_id, area));
            assert(sum_areas(rs) == rect_area(area));
        },
        LayoutNode::Split { direction, ratio, first, second } => {
            let parts = if direction == Direction::Horizontal {
                area.spec_split_horizontal(ratio)
            } else {
                area.spec_split_vertical(ratio)
            };
            if direction == Direction::Horizontal {
                lemma_split_horizontal_tiles(area, ratio);
            } else {
                lemma_split_vertical_tiles(area, ratio);
            }
            let ra = spec_rects(*first, parts.0);
            let rb = spec_rects(*second, parts.1);
            lemma_rects_properties(*first, parts.0);
            lemma_rects_properties(*second, parts.1);
            let rs = spec_rects(t, area);
            assert(rs == ra + rb);

            // Ids concatenate in depth-first order.
            assert(rects_ids(rs) =~= rects_ids(ra) + rects_ids(rb));
            assert(rects_ids(rs) =~= pane_ids_seq(t));

            // Containment lifts through the sub-areas.
            assert forall|i: int| 0 <= i < rs.len() implies rect_inside(
                #[trigger] rs[i].1,
                area,
            ) && rect_in_range(rs[i].1) by {
                if i < ra.len() {
                    assert(rs[i] == ra[i]);
                    lemma_inside_trans(ra[i].1, parts.0, area);
                } else {
                    assert(rs[i] == rb[i - ra.len()]);
                    lemma_inside_trans(rb[i - ra.len()].1, parts.1, area);
                }
            }

            // Rectangles from different halves are separated by the split.
            assert forall|i: int, j: int| 0 <= i < j < rs.len() implies rect_disjoint(
                #[trigger] rs[i].1,
                #[trigger] rs[j].1,
            ) by {
                if j < ra.len() {
                    assert(rs[i] == ra[i] && rs[j] == ra[j]);
                } else if i >= ra.len() {
                    assert(rs[i] == rb[i - ra.len()] && rs[j] == rb[j - ra.len()]);
                } else {
                    assert(rs[i] == ra[i] && rs[j] == rb[j - ra.len()]);
                    lemma_inside_disjoint(ra[i].1, rb[j - ra.len()].1, parts.0, parts.1);
                }
            }

            lemma_sum_areas_append(ra, rb);
        },
    }
}

/// Perfect tiling: the pane areas sum to the whole area.
pub proof fn lemma_perfect_tiling(t: LayoutNode, area: Rect)
    requires
        rect_in_range(area),
    ensures
        sum_areas(spec_rects(t, area)) == rect_area(area),
{
    lemma_rects_properties(t, area);
}

/// No overlap: for every pair of distinct panes' rectangles, either
/// the x-intervals are disjoint or the y-intervals are.
pub proof fn lemma_no_overlap(t: LayoutNode, area: Rect)
    requires
        rect_in_range(area),
    ensures
        rects_disjoint(spec_rects(t, area)),
{
    lemma_rects_properties(t, area);
}

/// Bounded: every pane rectangle lies fully inside the area.
pub proof fn lemma_rects_bounded(t: LayoutNode, area: Rect)
    requires
        rect_in_range(area),
    ensures
        rects_inside(spec_rects(t, area), area),
{
    lemma_rects_properties(t, area);
}

/// Count consistency: the layout yields exactly one rectangle per pane.
pub proof fn lemma_count_consistency(t: LayoutNode, area: Rect)
    requires
        rect_in_range(area),
    ensures
        spec_rects(t, area).len() == tree_count(t),
{
    lemma_rects_properties(t, area);
    assert(rects_ids(spec_rects(t, area)).len() == spec_rects(t, area).len());
}

/// The rectangles computed for every pane of a tree.
pub struct PaneRects {
    /// Pane ids with their rectangles, in depth-first order.
    pub entries: Vec<(PaneId, Rect)>,
}

impl PaneRects {
    /// Number of panes that received a rectangle.
    pub fn len(&self) -> (n: usize)
        ensures
            n == self.entries@.len(),
    {
        self.entries.len()
    }

    /// The rectangle of the given pane, if it received one.
    pub fn get(&self, id: PaneId) -> (r: Option<Rect>)
        ensures
            r matches Some(rect) ==> exists|i: int|
                0 <= i < self.entries@.len() && #[trigger] self.entries@[i] == (id, rect),
            r is None ==> forall|i: int|
                0 <= i < self.entries@.len() ==> (#[trigger] self.entries@[i]).0 != id,
    {
        let mut i: usize = 0;
        while i < self.entries.len()
            invariant
                0 <= i <= self.entries@.len(),
                forall|k: int| 0 <= k < i ==> (#[trigger] self.entries@[k]).0 != id,
            decreases self.entries@.len() - i,
        {
            let (pid, rect) = self.entries[i];
            if pid.0 == id.0 {
                assert(self.entries@[i as int] == (id, rect));
                return Some(rect);
            }
            i = i + 1;
        }
        None
    }
}

impl Clone for LayoutNode {
    /// A clone is equal to the original tree.
    fn clone(&self) -> (res: Self)
        ensures
            res == *self,
        decreases *self,
    {
        match self {
            LayoutNode::Leaf { pane_id } => LayoutNode::Leaf { pane_id: *pane_id },
            LayoutNode::Split { direction, ratio, first, second } => LayoutNode::Split {
                direction: *direction,
                ratio: *ratio,
                first: Box::new((**first).clone()),
                second: Box::new((**second).clone()),
            },
        }
    }
}

impl LayoutNode {
    /// Whether the tree contains a pane with the given id.
    pub fn find_pane(&self, id: PaneId) -> (r: bool)
        ensures
            r == tree_contains(*self, id),
        decreases *self,
    {
        match self {
            LayoutNode::Leaf { pane_id } => pane_id.0 == id.0,
            LayoutNode::Split { first, second, .. } => first.find_pane(id) || second.find_pane(
                id,
            ),
        }
    }

    fn pane_ids_into(&self, out: &mut Vec<PaneId>)
        ensures
            final(out)@ == old(out)@ + pane_ids_seq(*self),
        decreases *self,
    {
        match self {
            LayoutNode::Leaf { pane_id } => {
                out.push(*pane_id);
            },
            LayoutNode::Split { first, second, .. } => {
                first.pane_ids_into(out);
                second.pane_ids_into(out);
                assert(final(out)@ == old(out)@ + pane_ids_seq(*self));
            },
        }
    }

    /// Collect all pane ids in depth-first order.
    pub fn pane_ids(&self) -> (r: Vec<PaneId>)
        ensures
            r@ == pane_ids_seq(*self),
    {
        let mut out: Vec<PaneId> = Vec::new();
        self.pane_ids_into(&mut out);
        assert(out@ =~= pane_ids_seq(*self));
        out
    }

    /// Number of panes in this tree.
    pub fn pane_count(&self) -> (n: usize)
        ensures
            n == tree_count(*self),
    {
        let ids = self.pane_ids();
        ids.len()
    }

    fn calculate_rects_inner(&self, area: Rect, out: &mut Vec<(PaneId, Rect)>)
        requires
            rect_in_range(area),
        ensures
            final(out)@ == old(out)@ + spec_rects(*self, area),
        decreases *self,
    {
        match self {
            LayoutNode::Leaf { pane_id } => {
                out.push((*pane_id, area));
            },
            LayoutNode::Split { direction, ratio, first, second } => {
                let parts = match direction {
                    Direction::Horizontal => area.split_horizontal(*ratio),
                    Direction::Vertical => area.split_vertical(*ratio),
                };
                first.calculate_rects_inner(parts.0, out);
                second.calculate_rects_inner(parts.1, out);
                assert(final(out)@ == old(out)@ + spec_rects(*self, area));
            },
        }
    }

    /// Whether every split ratio of the tree lies within the allowed
    /// band.
    pub fn ratios_within_bounds(&self) -> (r: bool)
        ensures
            r == ratios_bounded(*self),
        decreases *self,
    {
        match self {
            LayoutNode::Leaf { .. } => true,
            LayoutNode::Split { ratio, first, second, .. } => {
                crate::MIN_RATIO <= *ratio && *ratio <= crate::MAX_RATIO
                    && first.ratios_within_bounds() && second.ratios_within_bounds()
            },
        }
    }

    /// Compute the screen rectangle for every pane.
    pub fn calculate_rects(&self, area: Rect) -> (r: PaneRects)
        requires
            rect_in_range(area),
        ensures
            r.entries@ == spec_rects(*self, area),
    {
        let mut out: Vec<(PaneId, Rect)> = Vec::new();
        self.calculate_rects_inner(area, &mut out);
        assert(out@ =~= spec_rects(*self, area));
        PaneRects { entries: out }
    }
}

} // verus!
