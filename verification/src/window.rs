//! Window (tab) management.
//!
//! A window owns a layout tree, the metadata of its panes, the focus,
//! and the zoom flag. Its invariant ties the metadata to the tree:
//! the pane list carries exactly the tree's ids, the focused pane is
//! in the tree, and every id ever handed out stays below the counter.

use vstd::prelude::*;

use crate::error::{MuxError, MuxResult};
use crate::layout::{
    lemma_contains_iff_seq, pane_ids_seq, spec_rects, tree_contains, tree_wf, Direction,
    LayoutNode, PaneId, PaneRects,
};
use crate::pane::Pane;
use crate::rect::{rect_in_range, Rect};
use crate::split::{
    lemma_close_props, lemma_split_props, spec_close, spec_split, split_pane,
};

verus! {

/// Unique identifier for a window.
#[derive(Debug, Clone, Copy, PartialEq, Eq, Structural)]
pub struct WindowId(pub u32);

/// The pane list holds an entry with this id.
pub open spec fn panes_has(s: Seq<Pane>, id: PaneId) -> bool {
    exists|i: int| 0 <= i < s.len() && s[i].id == id
}

/// No two entries of the pane list share an id.
pub open spec fn panes_ids_distinct(s: Seq<Pane>) -> bool {
    forall|i: int, j: int| 0 <= i < j < s.len() ==> s[i].id != s[j].id
}

/// A multiplexer window (tab) owning a layout and panes.
#[derive(Debug)]
pub struct MuxWindow {
    /// Unique window identifier.
    pub id: WindowId,
    /// User-visible name.
    pub name: String,
    /// Binary layout tree.
    pub layout: LayoutNode,
    /// Currently focused pane.
    pub active_pane: PaneId,
    /// Pane metadata, one entry per pane of the layout.
    pub panes: Vec<Pane>,
    /// Next pane id counter.
    pub next_pane_id: u32,
    /// Whether the active pane is zoomed (full-screen).
    pub zoomed: bool,
}

/// Window invariant: a well-formed tree, focus inside it, metadata
/// matching the tree's id set, and all ids below the counter.
pub open spec fn win_wf(w: MuxWindow) -> bool {
    &&& tree_wf(w.layout)
    &&& tree_contains(w.layout, w.active_pane)
    &&& forall|id: PaneId| #[trigger] tree_contains(w.layout, id) ==> id.0 < w.next_pane_id
    &&& forall|id: PaneId|
        #[trigger] tree_contains(w.layout, id) <==> #[trigger] panes_has(w.panes@, id)
    &&& panes_ids_distinct(w.panes@)
}

/// Index of the first pane entry holding `id`.
fn find_pane_index(panes: &Vec<Pane>, id: PaneId) -> (i: usize)
    requires
        panes_has(panes@, id),
    ensures
        i < panes@.len(),
        panes@[i as int].id == id,
{
    let mut i: usize = 0;
    while i < panes.len()
        invariant
            0 <= i <= panes@.len(),
            panes_has(panes@, id),
            forall|k: int| 0 <= k < i ==> panes@[k].id != id,
        decreases panes@.len() - i,
    {
        if panes[i].id.0 == id.0 {
            return i;
        }
        i = i + 1;
    }
    proof {
        assert(false);
    }
    0
}

/// Whether `id` has an entry in the pane list.
fn has_pane_entry(panes: &Vec<Pane>, id: PaneId) -> (r: bool)
    ensures
        r == panes_has(panes@, id),
{
    let mut i: usize = 0;
    while i < panes.len()
        invariant
            0 <= i <= panes@.len(),
            forall|k: int| 0 <= k < i ==> panes@[k].id != id,
        decreases panes@.len() - i,
    {
        if panes[i].id.0 == id.0 {
            proof {
                assert(panes@[i as int].id == id);
            }
            return true;
        }
        i = i + 1;
    }
    false
}

/// Whether no pane id repeats in the list.
fn ids_distinct(ids: &Vec<PaneId>) -> (r: bool)
    ensures
        r == ids@.no_duplicates(),
{
    let mut i: usize = 0;
    while i < ids.len()
        invariant
            0 <= i <= ids@.len(),
            forall|a: int, b: int| 0 <= a < b < i ==> ids@[a] != ids@[b],
        decreases ids@.len() - i,
    {
        let mut j: usize = 0;
        while j < i
            invariant
                0 <= j <= i < ids@.len(),
                forall|a: int, b: int| 0 <= a < b < i ==> ids@[a] != ids@[b],
                forall|b: int| 0 <= b < j ==> ids@[b] != ids@[i as int],
            decreases i - j,
        {
            if ids[j].0 == ids[i].0 {
                proof {
                    assert(ids@[j as int] == ids@[i as int]);
                }
                return false;
            }
            j = j + 1;
        }
        i = i + 1;
    }
    true
}

/// A freshly created window: the given id and name, a single pane
/// with id zero and an empty title, the focus on it, the pane-id
/// counter at one, and zoom off.
pub open spec fn fresh_window(w: MuxWindow, id: WindowId, name: Seq<char>) -> bool {
    &&& w.id == id
    &&& w.name@ == name
    &&& w.layout == (LayoutNode::Leaf { pane_id: PaneId(0) })
    &&& w.active_pane == (PaneId(0))
    &&& w.panes@.len() == 1
    &&& w.panes@[0].id == (PaneId(0))
    &&& w.panes@[0].title@ == Seq::<char>::empty()
    &&& w.next_pane_id == 1
    &&& !w.zoomed
}

impl MuxWindow {
    /// Create a window with a single initial pane.
    pub fn new(id: WindowId, name: &str) -> (w: MuxWindow)
        ensures
            fresh_window(w, id, name@),
            win_wf(w),
    {
        let pane_id = PaneId(0);
        let pane = Pane::new(pane_id);
        let mut panes: Vec<Pane> = Vec::new();
        panes.push(pane);

        let w = MuxWindow {
            id,
            name: name.to_owned(),
            layout: LayoutNode::Leaf { pane_id },
            active_pane: pane_id,
            panes,
            next_pane_id: 1,
            zoomed: false,
        };
        proof {
            assert(pane_ids_seq(w.layout) == seq![pane_id]);
            assert(tree_wf(w.layout));
            assert forall|id2: PaneId| tree_contains(w.layout, id2) <==> panes_has(
                w.panes@,
                id2,
            ) by {
                if tree_contains(w.layout, id2) {
                    assert(w.panes@[0].id == id2);
                }
            }
        }
        w
    }

    /// Split the given pane, returning the new pane's id.
    ///
    /// On success the new pane takes the next free id, its metadata is
    /// recorded, and zoom is cleared; focus is unchanged. When the
    /// pane is absent, or no pane id is left, nothing changes.
    pub fn split(&mut self, pane_id: PaneId, dir: Direction) -> (r: MuxResult<PaneId>)
        requires
            win_wf(*old(self)),
        ensures
            win_wf(*final(self)),
            final(self).id == old(self).id && final(self).name == old(self).name,
            !tree_contains(old(self).layout, pane_id) ==> r == Err::<PaneId, _>(
                MuxError::PaneNotFound(pane_id.0),
            ) && *final(self) == *old(self),
            tree_contains(old(self).layout, pane_id) && old(self).next_pane_id < u32::MAX
                ==> ({
                let new_id = PaneId(old(self).next_pane_id);
                &&& r == Ok::<_, MuxError>(new_id)
                &&& final(self).layout == spec_split(old(self).layout, pane_id, dir, new_id)
                &&& final(self).active_pane == old(self).active_pane
                &&& !final(self).zoomed
                &&& final(self).next_pane_id == old(self).next_pane_id + 1
                &&& final(self).panes@.len() == old(self).panes@.len() + 1
                &&& final(self).panes@.drop_last() == old(self).panes@
                &&& final(self).panes@.last().id == new_id
            }),
            tree_contains(old(self).layout, pane_id) && old(self).next_pane_id == u32::MAX
                ==> (r matches Err(MuxError::LayoutError(_))) && *final(self) == *old(self),
    {
        if !self.layout.find_pane(pane_id) {
            return Err(MuxError::PaneNotFound(pane_id.0));
        }
        if self.next_pane_id == u32::MAX {
            return Err(MuxError::LayoutError("pane id space exhausted".to_owned()));
        }
        let new_id = PaneId(self.next_pane_id);
        proof {
            if tree_contains(old(self).layout, new_id) {
                assert(new_id.0 < old(self).next_pane_id);
            }
            lemma_split_props(old(self).layout, pane_id, dir, new_id);
        }
        self.next_pane_id = self.next_pane_id + 1;

        let mut layout = LayoutNode::Leaf { pane_id: PaneId(0) };
        core::mem::swap(&mut self.layout, &mut layout);
        match split_pane(layout, pane_id, dir, new_id) {
            Ok((new_layout, new_pane_id)) => {
                self.layout = new_layout;
                self.panes.push(Pane::new(new_pane_id));
                self.zoomed = false;
                proof {
                    let t2 = self.layout;
                    assert forall|id2: PaneId| tree_contains(t2, id2) <==> panes_has(
                        self.panes@,
                        id2,
                    ) by {
                        let oldp = old(self).panes@;
                        let newp = self.panes@;
                        if tree_contains(t2, id2) {
                            if id2 == new_id {
                                assert(newp[newp.len() - 1].id == id2);
                            } else {
                                assert(tree_contains(old(self).layout, id2));
                                assert(panes_has(oldp, id2));
                                let i = choose|i: int| 0 <= i < oldp.len() && oldp[i].id == id2;
                                assert(newp[i].id == id2);
                            }
                        }
                        if panes_has(newp, id2) {
                            let i = choose|i: int| 0 <= i < newp.len() && newp[i].id == id2;
                            if i < oldp.len() {
                                assert(oldp[i].id == id2);
                                assert(panes_has(oldp, id2));
                                assert(tree_contains(old(self).layout, id2));
                            }
                        }
                    }
                    assert forall|i: int, j: int|
                        0 <= i < j < self.panes@.len() implies self.panes@[i].id
                        != self.panes@[j].id by {
                        let oldp = old(self).panes@;
                        let newp = self.panes@;
                        if j < oldp.len() {
                        } else {
                            assert(newp[j].id == new_id);
                            if newp[i].id == new_id {
                                assert(panes_has(oldp, new_id));
                                assert(tree_contains(old(self).layout, new_id));
                            }
                        }
                    }
                    assert(tree_wf(t2));
                    assert(tree_contains(t2, self.active_pane));
                    assert forall|id2: PaneId| #[trigger] tree_contains(t2, id2) implies id2.0
                        < self.next_pane_id by {
                        assert(tree_contains(old(self).layout, id2) || id2 == new_id);
                    }
                }
                Ok(new_pane_id)
            },
            Err(e) => {
                proof {
                    assert(false);
                }
                Err(e)
            },
        }
    }

    /// Close the given pane. Returns `true` if the window is now
    /// empty; the caller is then expected to destroy the window.
    ///
    /// Removing a pane clears zoom. When the closed pane was focused,
    /// focus moves to the first remaining pane in depth-first order.
    /// When the pane is absent, nothing changes.
    pub fn close_pane(&mut self, pane_id: PaneId) -> (r: MuxResult<bool>)
        requires
            win_wf(*old(self)),
        ensures
            final(self).id == old(self).id && final(self).name == old(self).name,
            final(self).next_pane_id == old(self).next_pane_id,
            !tree_contains(old(self).layout, pane_id) ==> r == Err::<bool, _>(
                MuxError::PaneNotFound(pane_id.0),
            ) && *final(self) == *old(self),
            tree_contains(old(self).layout, pane_id) && (spec_close(old(self).layout, pane_id)
                is None) ==> r == Ok::<_, MuxError>(true) && final(self).panes@.len() == 0
                && !final(self).zoomed,
            tree_contains(old(self).layout, pane_id) ==> (spec_close(old(self).layout, pane_id)
                matches Some(t2) ==> ({
                &&& r == Ok::<_, MuxError>(false)
                &&& final(self).layout == t2
                &&& !final(self).zoomed
                &&& final(self).panes@.len() == old(self).panes@.len() - 1
                &&& !panes_has(final(self).panes@, pane_id)
                &&& final(self).active_pane == (if old(self).active_pane == pane_id {
                    pane_ids_seq(t2)[0]
                } else {
                    old(self).active_pane
                })
                &&& win_wf(*final(self))
            })),
    {
        if !self.layout.find_pane(pane_id) {
            return Err(MuxError::PaneNotFound(pane_id.0));
        }
        proof {
            lemma_close_props(old(self).layout, pane_id);
        }

        let mut layout = LayoutNode::Leaf { pane_id: PaneId(0) };
        core::mem::swap(&mut self.layout, &mut layout);
        let remaining = match crate::split::close_pane(layout, pane_id) {
            Ok(rem) => rem,
            Err(e) => {
                proof {
                    assert(false);
                }
                return Err(e);
            },
        };

        let idx = find_pane_index(&self.panes, pane_id);
        let ghost oldp = self.panes@;
        proof {
            assert(oldp == old(self).panes@);
        }
        self.panes.remove(idx);
        proof {
            oldp.remove_ensures(idx as int);
            assert forall|id2: PaneId| id2 != pane_id implies (panes_has(oldp, id2)
                <==> panes_has(self.panes@, id2)) by {
                let newp = self.panes@;
                if panes_has(oldp, id2) {
                    let i = choose|i: int| 0 <= i < oldp.len() && oldp[i].id == id2;
                    if i < idx {
                        assert(newp[i].id == id2);
                    } else if i > idx {
                        assert(newp[i - 1].id == id2);
                    }
                }
                if panes_has(newp, id2) {
                    let i = choose|i: int| 0 <= i < newp.len() && newp[i].id == id2;
                    if i < idx {
                        assert(oldp[i].id == id2);
                    } else {
                        assert(oldp[i + 1].id == id2);
                    }
                }
            }
            assert(!panes_has(self.panes@, pane_id)) by {
                let newp = self.panes@;
                if panes_has(newp, pane_id) {
                    let i = choose|i: int| 0 <= i < newp.len() && newp[i].id == pane_id;
                    if i < idx {
                        assert(oldp[i].id == pane_id);
                        assert(oldp[idx as int].id == pane_id);
                    } else {
                        assert(oldp[i + 1].id == pane_id);
                        assert(oldp[idx as int].id == pane_id);
                    }
                }
            }
            assert(panes_ids_distinct(self.panes@)) by {
                let newp = self.panes@;
                assert forall|i: int, j: int| 0 <= i < j < newp.len() implies newp[i].id
                    != newp[j].id by {
                    let i0: int = if i < idx { i } else { i + 1 };
                    let j0: int = if j < idx { j } else { j + 1 };
                    assert(newp[i] == oldp[i0] && newp[j] == oldp[j0]);
                }
            }
        }
        self.zoomed = false;

        match remaining {
            Some(new_layout) => {
                self.layout = new_layout;
                if self.active_pane.0 == pane_id.0 {
                    proof {
                        crate::layout::lemma_tree_count_pos(self.layout);
                    }
                    let order = self.layout.pane_ids();
                    self.active_pane = order[0];
                    proof {
                        lemma_contains_iff_seq(self.layout, self.active_pane);
                    }
                }
                proof {
                    let t2 = self.layout;
                    if old(self).active_pane != pane_id {
                        assert(tree_contains(t2, old(self).active_pane));
                    }
                    assert forall|id2: PaneId| #[trigger] tree_contains(t2, id2) implies id2.0
                        < self.next_pane_id by {
                        if id2 == pane_id {
                            assert(!tree_contains(t2, id2));
                        } else {
                            assert(tree_contains(old(self).layout, id2));
                        }
                    }
                    assert forall|id2: PaneId| tree_contains(t2, id2) <==> panes_has(
                        self.panes@,
                        id2,
                    ) by {
                        if id2 == pane_id {
                            assert(!tree_contains(t2, id2));
                            assert(!panes_has(self.panes@, id2));
                        } else {
                            assert(tree_contains(t2, id2) <==> tree_contains(
                                old(self).layout,
                                id2,
                            ));
                            assert(panes_has(self.panes@, id2) <==> panes_has(oldp, id2));
                            assert(panes_has(oldp, id2) <==> tree_contains(
                                old(self).layout,
                                id2,
                            ));
                        }
                    }
                }
                Ok(false)
            },
            None => {
                proof {
                    assert(old(self).layout == (LayoutNode::Leaf { pane_id }));
                    assert(pane_ids_seq(old(self).layout) == seq![pane_id]);
                    assert forall|i: int| 0 <= i < oldp.len() implies oldp[i].id == pane_id by {
                        if oldp[i].id != pane_id {
                            assert(panes_has(oldp, oldp[i].id));
                            assert(tree_contains(old(self).layout, oldp[i].id));
                        }
                    }
                    if oldp.len() > 1 {
                        assert(oldp[0].id == pane_id && oldp[1].id == pane_id);
                        assert(false);
                    }
                }
                Ok(true)
            },
        }
    }

    /// Decide the window invariant: whether this window satisfies
    /// [`win_wf`]. Lets a caller validate data that arrived from
    /// outside, e.g. a session restored from disk.
    pub fn is_well_formed(&self) -> (r: bool)
        ensures
            r == win_wf(*self),
    {
        if !self.layout.ratios_within_bounds() {
            return false;
        }
        let ids = self.layout.pane_ids();
        if !ids_distinct(&ids) {
            return false;
        }
        if !self.layout.find_pane(self.active_pane) {
            return false;
        }
        // Every pane of the tree: id below the counter, and a
        // metadata entry present.
        let mut i: usize = 0;
        while i < ids.len()
            invariant
                0 <= i <= ids@.len(),
                ids@ == pane_ids_seq(self.layout),
                forall|k: int|
                    0 <= k < i ==> (#[trigger] ids@[k]).0 < self.next_pane_id && panes_has(
                        self.panes@,
                        ids@[k],
                    ),
            decreases ids@.len() - i,
        {
            if ids[i].0 >= self.next_pane_id {
                proof {
                    lemma_contains_iff_seq(self.layout, ids@[i as int]);
                    assert(tree_contains(self.layout, ids@[i as int]));
                }
                return false;
            }
            if !has_pane_entry(&self.panes, ids[i]) {
                proof {
                    lemma_contains_iff_seq(self.layout, ids@[i as int]);
                    assert(tree_contains(self.layout, ids@[i as int]));
                }
                return false;
            }
            i = i + 1;
        }
        // Every metadata entry names a pane of the tree, and no id
        // repeats.
        let mut j: usize = 0;
        while j < self.panes.len()
            invariant
                0 <= j <= self.panes@.len(),
                forall|k: int|
                    0 <= k < j ==> tree_contains(self.layout, (#[trigger] self.panes@[k]).id),
                forall|a: int, b: int|
                    0 <= a < b < j ==> self.panes@[a].id != self.panes@[b].id,
            decreases self.panes@.len() - j,
        {
            if !self.layout.find_pane(self.panes[j].id) {
                proof {
                    assert(panes_has(self.panes@, self.panes@[j as int].id));
                }
                return false;
            }
            let mut k: usize = 0;
            while k < j
                invariant
                    0 <= k <= j < self.panes@.len(),
                    forall|b: int| 0 <= b < k ==> self.panes@[b].id != self.panes@[j as int].id,
                decreases j - k,
            {
                if self.panes[k].id.0 == self.panes[j].id.0 {
                    proof {
                        assert(self.panes@[k as int].id == self.panes@[j as int].id);
                    }
                    return false;
                }
                k = k + 1;
            }
            j = j + 1;
        }
        proof {
            assert(tree_wf(self.layout));
            assert forall|id2: PaneId| #[trigger] tree_contains(self.layout, id2) implies id2.0
                < self.next_pane_id by {
                lemma_contains_iff_seq(self.layout, id2);
                let k = choose|k: int| 0 <= k < ids@.len() && ids@[k] == id2;
                assert(ids@[k].0 < self.next_pane_id);
            }
            assert forall|id2: PaneId| tree_contains(self.layout, id2) <==> panes_has(
                self.panes@,
                id2,
            ) by {
                if tree_contains(self.layout, id2) {
                    lemma_contains_iff_seq(self.layout, id2);
                    let k = choose|k: int| 0 <= k < ids@.len() && ids@[k] == id2;
                    assert(panes_has(self.panes@, ids@[k]));
                }
                if panes_has(self.panes@, id2) {
                    let k = choose|k: int|
                        0 <= k < self.panes@.len() && self.panes@[k].id == id2;
                    assert(tree_contains(self.layout, self.panes@[k].id));
                }
            }
            assert(panes_ids_distinct(self.panes@));
        }
        true
    }

    /// Ordered list of pane ids (depth-first).
    pub fn pane_order(&self) -> (r: Vec<PaneId>)
        ensures
            r@ == pane_ids_seq(self.layout),
    {
        self.layout.pane_ids()
    }

    /// Focus the next pane in order (wraps around).
    pub fn next_pane(&mut self)
        requires
            win_wf(*old(self)),
        ensures
            win_wf(*final(self)),
            final(self).active_pane == spec_cycle_next(
                pane_ids_seq(old(self).layout),
                old(self).active_pane,
            ),
            *final(self) == (MuxWindow { active_pane: final(self).active_pane, ..*old(self) }),
    {
        proof {
            crate::layout::lemma_tree_count_pos(old(self).layout);
        }
        let order = self.pane_order();
        self.active_pane = cycle_next(&order, self.active_pane);
        proof {
            lemma_contains_iff_seq(self.layout, self.active_pane);
            lemma_cycle_next_in_order(pane_ids_seq(old(self).layout), old(self).active_pane);
        }
    }

    /// Focus the previous pane in order (wraps around).
    pub fn prev_pane(&mut self)
        requires
            win_wf(*old(self)),
        ensures
            win_wf(*final(self)),
            final(self).active_pane == spec_cycle_prev(
                pane_ids_seq(old(self).layout),
                old(self).active_pane,
            ),
            *final(self) == (MuxWindow { active_pane: final(self).active_pane, ..*old(self) }),
    {
        proof {
            crate::layout::lemma_tree_count_pos(old(self).layout);
        }
        let order = self.pane_order();
        self.active_pane = cycle_prev(&order, self.active_pane);
        proof {
            lemma_contains_iff_seq(self.layout, self.active_pane);
            lemma_cycle_prev_in_order(pane_ids_seq(old(self).layout), old(self).active_pane);
        }
    }

    /// Resize the split enclosing the focused pane by `delta`
    /// thousandths (see [`crate::resize::resize_pane`]); reports
    /// whether an enclosing split was found.
    pub fn resize_active(&mut self, delta: i32) -> (r: MuxResult<()>)
        requires
            win_wf(*old(self)),
        ensures
            win_wf(*final(self)),
            final(self).layout == crate::resize::spec_resize(
                old(self).layout,
                old(self).active_pane,
                delta as int,
            ).0,
            *final(self) == (MuxWindow { layout: final(self).layout, ..*old(self) }),
            r is Ok <==> crate::resize::spec_resize(
                old(self).layout,
                old(self).active_pane,
                delta as int,
            ).1,
    {
        let pane_id = self.active_pane;
        let r = crate::resize::resize_pane(&mut self.layout, pane_id, delta);
        proof {
            crate::resize::lemma_resize_props(
                old(self).layout,
                old(self).active_pane,
                delta as int,
            );
            let t2 = self.layout;
            assert(pane_ids_seq(t2) == pane_ids_seq(old(self).layout));
            assert forall|id2: PaneId| tree_contains(t2, id2) <==> tree_contains(
                old(self).layout,
                id2,
            ) by {
                lemma_contains_iff_seq(t2, id2);
                lemma_contains_iff_seq(old(self).layout, id2);
            }
            assert(tree_wf(t2));
            assert forall|id2: PaneId| #[trigger] tree_contains(t2, id2) implies id2.0
                < self.next_pane_id by {
                assert(tree_contains(old(self).layout, id2));
            }
            assert forall|id2: PaneId| tree_contains(t2, id2) <==> panes_has(
                self.panes@,
                id2,
            ) by {
                assert(tree_contains(t2, id2) <==> tree_contains(old(self).layout, id2));
            }
        }
        r
    }

    /// Compute screen rectangles for all panes.
    ///
    /// Zoom is not applied here: a zoomed window still reports every
    /// pane's rectangle, and the render layer honors the flag.
    pub fn pane_rects(&self, total_area: Rect) -> (r: PaneRects)
        requires
            rect_in_range(total_area),
        ensures
            r.entries@ == spec_rects(self.layout, total_area),
    {
        self.layout.calculate_rects(total_area)
    }
}

/// The two windows agree on every observable field, with names and
/// titles compared by their text.
pub open spec fn window_like(a: MuxWindow, b: MuxWindow) -> bool {
    &&& a.id == b.id
    &&& a.name@ == b.name@
    &&& a.layout == b.layout
    &&& a.active_pane == b.active_pane
    &&& a.next_pane_id == b.next_pane_id
    &&& a.zoomed == b.zoomed
    &&& a.panes@.len() == b.panes@.len()
    &&& forall|i: int|
        0 <= i < a.panes@.len() ==> (#[trigger] a.panes@[i]).id == b.panes@[i].id
            && a.panes@[i].title@ == b.panes@[i].title@
}

impl Clone for MuxWindow {
    /// A clone matches the original in every observable field.
    fn clone(&self) -> (res: Self)
        ensures
            window_like(res, *self),
            win_wf(*self) ==> win_wf(res),
    {
        let mut panes: Vec<Pane> = Vec::new();
        let mut i: usize = 0;
        while i < self.panes.len()
            invariant
                0 <= i <= self.panes@.len(),
                panes@.len() == i,
                forall|k: int|
                    0 <= k < i ==> (#[trigger] panes@[k]).id == self.panes@[k].id
                        && panes@[k].title@ == self.panes@[k].title@,
            decreases self.panes@.len() - i,
        {
            panes.push(self.panes[i].clone());
            i = i + 1;
        }
        let res = MuxWindow {
            id: self.id,
            name: self.name.clone(),
            layout: self.layout.clone(),
            active_pane: self.active_pane,
            panes,
            next_pane_id: self.next_pane_id,
            zoomed: self.zoomed,
        };
        proof {
            if win_wf(*self) {
                assert(res.layout == self.layout);
                assert forall|id2: PaneId| tree_contains(res.layout, id2) <==> panes_has(
                    res.panes@,
                    id2,
                ) by {
                    if tree_contains(res.layout, id2) {
                        assert(tree_contains(self.layout, id2));
                        assert(panes_has(self.panes@, id2));
                        let i2 = choose|i2: int|
                            0 <= i2 < self.panes@.len() && self.panes@[i2].id == id2;
                        assert(res.panes@[i2].id == id2);
                    }
                    if panes_has(res.panes@, id2) {
                        let i2 = choose|i2: int|
                            0 <= i2 < res.panes@.len() && res.panes@[i2].id == id2;
                        assert(self.panes@[i2].id == id2);
                        assert(panes_has(self.panes@, id2));
                        assert(tree_contains(self.layout, id2));
                    }
                }
            }
        }
        res
    }
}

/// The pane after `current` in the cycle over `order`; an absent
/// `current` counts as the first position.
pub open spec fn spec_cycle_next(order: Seq<PaneId>, current: PaneId) -> PaneId
    recommends
        order.len() > 0,
{
    let pos = match order.index_of_first(current) {
        Some(p) => p,
        None => 0,
    };
    if pos + 1 < order.len() {
        order[pos + 1]
    } else {
        order[0]
    }
}

/// The pane before `current` in the cycle over `order`.
pub open spec fn spec_cycle_prev(order: Seq<PaneId>, current: PaneId) -> PaneId
    recommends
        order.len() > 0,
{
    let pos = match order.index_of_first(current) {
        Some(p) => p,
        None => 0,
    };
    if pos == 0 {
        order[order.len() - 1]
    } else {
        order[pos - 1]
    }
}

/// Cycling lands on a pane of the order.
pub proof fn lemma_cycle_next_in_order(order: Seq<PaneId>, current: PaneId)
    requires
        order.len() > 0,
    ensures
        order.contains(spec_cycle_next(order, current)),
{
    order.index_of_first_ensures(current);
}

/// Cycling backwards lands on a pane of the order.
pub proof fn lemma_cycle_prev_in_order(order: Seq<PaneId>, current: PaneId)
    requires
        order.len() > 0,
    ensures
        order.contains(spec_cycle_prev(order, current)),
{
    order.index_of_first_ensures(current);
}

/// Focus the next pane id in `order` after `current`, wrapping around.
pub fn cycle_next(order: &Vec<PaneId>, current: PaneId) -> (r: PaneId)
    requires
        order@.len() > 0,
    ensures
        r == spec_cycle_next(order@, current),
{
    let n = order.len();
    let pos = position_or_zero(order, current);
    if pos + 1 < n {
        order[pos + 1]
    } else {
        order[0]
    }
}

/// Focus the previous pane id in `order` before `current`, wrapping
/// around.
pub fn cycle_prev(order: &Vec<PaneId>, current: PaneId) -> (r: PaneId)
    requires
        order@.len() > 0,
    ensures
        r == spec_cycle_prev(order@, current),
{
    let pos = position_or_zero(order, current);
    if pos == 0 {
        order[order.len() - 1]
    } else {
        order[pos - 1]
    }
}

/// First position of `current` in `order`, or zero when absent.
fn position_or_zero(order: &Vec<PaneId>, current: PaneId) -> (pos: usize)
    requires
        order@.len() > 0,
    ensures
        pos < order@.len(),
        pos as int == (match order@.index_of_first(current) {
            Some(p) => p,
            None => 0,
        }),
{
    proof {
        order@.index_of_first_ensures(current);
    }
    let mut i: usize = 0;
    while i < order.len()
        invariant
            0 <= i <= order@.len(),
            forall|k: int| 0 <= k < i ==> order@[k] != current,
        decreases order@.len() - i,
    {
        if order[i].0 == current.0 {
            proof {
                assert(order@[i as int] == current);
                assert(order@.contains(current));
                order@.index_of_first_ensures(current);
                match order@.index_of_first(current) {
                    Some(q) => {
                        if q < i as int {
                            assert(order@[q] == current);
                            assert(false);
                        }
                        if q > i as int {
                            assert(order@[i as int] != current);
                            assert(false);
                        }
                    },
                    None => {
                        assert(false);
                    },
                }
            }
            return i;
        }
        i = i + 1;
    }
    proof {
        assert(forall|k: int| 0 <= k < order@.len() ==> order@[k] != current);
        assert(!order@.contains(current));
        order@.index_of_first_ensures(current);
    }
    0
}

/// How many panes `next` must step to return to the start: applying
/// the cycle `k` times from `current`.
pub open spec fn iter_cycle_next(order: Seq<PaneId>, current: PaneId, k: nat) -> PaneId
    decreases k,
{
    if k == 0 {
        current
    } else {
        spec_cycle_next(order, iter_cycle_next(order, current, (k - 1) as nat))
    }
}

proof fn lemma_iter_cycle_shift(order: Seq<PaneId>, current: PaneId, k: nat)
    requires
        order.no_duplicates(),
        order.contains(current),
    ensures
        ({
            let n = order.len() as int;
            let pos0 = order.index_of_first(current).unwrap();
            exists|p: int|
                0 <= p < n && #[trigger] ((p - pos0 - k) % n) == 0 && iter_cycle_next(
                    order,
                    current,
                    k,
                ) == order[p]
        }),
    decreases k,
{
    let n = order.len() as int;
    order.index_of_first_ensures(current);
    let pos0 = order.index_of_first(current).unwrap();
    if k == 0 {
        let wi = choose|wi: int| 0 <= wi < order.len() && order[wi] == current;
        assert(n > 0);
        assert(pos0 - pos0 - k == 0);
        assert((0int) % n == 0);
        assert((pos0 - pos0 - k) % n == 0);
        assert(iter_cycle_next(order, current, 0) == current);
        assert(order[pos0] == current);
    } else {
        lemma_iter_cycle_shift(order, current, (k - 1) as nat);
        let p = choose|p: int|
            0 <= p < n && #[trigger] ((p - pos0 - (k - 1)) % n) == 0 && iter_cycle_next(
                order,
                current,
                (k - 1) as nat,
            ) == order[p];
        let prev = iter_cycle_next(order, current, (k - 1) as nat);
        assert(prev == order[p]);
        order.index_of_first_ensures(prev);
        let q = order.index_of_first(prev).unwrap();
        assert(order[q] == order[p]);
        assert(q == p);
        let p2: int = if p + 1 < n { p + 1 } else { 0 };
        assert(iter_cycle_next(order, current, k) == spec_cycle_next(order, prev));
        assert(spec_cycle_next(order, prev) == order[p2]);
        assert((p2 - pos0 - k) % n == 0) by {
            let a = p - pos0 - (k - 1);
            assert(a % n == 0);
            if p + 1 < n {
                assert(p2 - pos0 - k == a);
            } else {
                assert(p2 - pos0 - k == a - n);
                vstd::arithmetic::div_mod::lemma_mod_sub_multiples_vanish(a, n);
                assert((-n + a) % n == a % n);
                assert(a - n == -n + a);
            }
        }
    }
}

/// Navigation cycling: stepping the focus forward once per pane walks
/// the whole cycle and returns to the starting pane.
pub proof fn lemma_navigation_cycles(order: Seq<PaneId>, current: PaneId)
    requires
        order.no_duplicates(),
        order.contains(current),
    ensures
        iter_cycle_next(order, current, order.len()) == current,
{
    let n = order.len() as int;
    order.index_of_first_ensures(current);
    let pos0 = order.index_of_first(current).unwrap();
    lemma_iter_cycle_shift(order, current, order.len());
    let p = choose|p: int|
        0 <= p < n && #[trigger] ((p - pos0 - order.len()) % n) == 0 && iter_cycle_next(
            order,
            current,
            order.len(),
        ) == order[p];
    assert(p == pos0) by {
        let a = p - pos0 - n;
        assert(a % n == 0);
        vstd::arithmetic::div_mod::lemma_mod_add_multiples_vanish(a, n);
        assert((n + a) % n == a % n);
        assert(n + a == p - pos0);
        assert((p - pos0) % n == 0);
        if p > pos0 {
            vstd::arithmetic::div_mod::lemma_small_mod((p - pos0) as nat, n as nat);
            assert(false);
        }
        if p < pos0 {
            let d = p - pos0 + n;
            vstd::arithmetic::div_mod::lemma_mod_add_multiples_vanish(p - pos0, n);
            assert(d % n == (p - pos0) % n);
            vstd::arithmetic::div_mod::lemma_small_mod(d as nat, n as nat);
            assert(false);
        }
    }
}

} // verus!
