//! Cell-level support for multi-pane rendering.
//!
//! The render layer draws panes, borders and the status bar in
//! pixels; everything it needs from the layout is computed here in
//! cell units, including the zoom rule: a zoomed window shows only
//! its active pane, full-bleed.

use vstd::prelude::*;

use crate::layout::{spec_rects, PaneId};
use crate::rect::{rect_in_range, Rect};
use crate::session::Session;

verus! {

/// Whether the half-open intervals `[start1, start1+len1)` and
/// `[start2, start2+len2)` intersect.
pub open spec fn spec_ranges_overlap(start1: u16, len1: u16, start2: u16, len2: u16) -> bool {
    start1 < start2 + len2 && start2 < start1 + len1
}

/// Whether two cell ranges overlap.
pub fn ranges_overlap(start1: u16, len1: u16, start2: u16, len2: u16) -> (r: bool)
    ensures
        r == spec_ranges_overlap(start1, len1, start2, len2),
{
    let end1: u32 = start1 as u32 + len1 as u32;
    let end2: u32 = start2 as u32 + len2 as u32;
    (start1 as u32) < end2 && (start2 as u32) < end1
}

/// The length of the intersection of two cell ranges, zero when they
/// are disjoint.
pub open spec fn spec_overlap_len(start1: u16, len1: u16, start2: u16, len2: u16) -> int {
    let end1 = start1 + len1;
    let end2 = start2 + len2;
    let lo = if start1 > start2 {
        start1 as int
    } else {
        start2 as int
    };
    let hi = if end1 < end2 {
        end1
    } else {
        end2
    };
    if hi > lo {
        hi - lo
    } else {
        0
    }
}

/// How many cells two ranges overlap.
pub fn overlap_len(start1: u16, len1: u16, start2: u16, len2: u16) -> (r: u16)
    ensures
        r == spec_overlap_len(start1, len1, start2, len2),
{
    let end1: u32 = start1 as u32 + len1 as u32;
    let end2: u32 = start2 as u32 + len2 as u32;
    let lo: u32 = if start1 > start2 {
        start1 as u32
    } else {
        start2 as u32
    };
    let hi: u32 = if end1 < end2 {
        end1
    } else {
        end2
    };
    if hi > lo {
        ((hi - lo) as u16)
    } else {
        0
    }
}

/// The cell rectangles the render layer must draw for the active
/// window: all pane rectangles normally, only the active pane over
/// the whole area when the window is zoomed, nothing for an empty
/// session.
pub fn visible_pane_rects(session: &Session, area: Rect) -> (r: Vec<(PaneId, Rect)>)
    requires
        rect_in_range(area),
    ensures
        session.windows@.len() == 0 ==> r@.len() == 0,
        session.windows@.len() > 0 && session.active_window < session.windows@.len() ==> ({
            let w = session.windows@[session.active_window as int];
            if w.zoomed {
                r@ =~= seq![(w.active_pane, area)]
            } else {
                r@ == spec_rects(w.layout, area)
            }
        }),
{
    match session.active_win() {
        None => Vec::new(),
        Some(w) => {
            if w.zoomed {
                let mut out: Vec<(PaneId, Rect)> = Vec::new();
                out.push((w.active_pane, area));
                out
            } else {
                let rects = w.pane_rects(area);
                rects.entries
            }
        },
    }
}

/// A border segment between two adjacent panes, in cell units: a
/// vertical border runs down the left edge of column `x`, a
/// horizontal one along the top edge of row `y`.
#[derive(Debug, Clone, Copy, PartialEq, Eq, Structural)]
pub struct PaneBorder {
    /// Column of the border's start.
    pub x: u16,
    /// Row of the border's start.
    pub y: u16,
    /// Cells the border spans.
    pub length: u16,
    /// Whether the border runs vertically.
    pub vertical: bool,
    /// Whether this border touches the active pane.
    pub is_active: bool,
}

/// `b` is the border segment along the shared edge of `r1` and `r2`,
/// where `r2` sits directly right of or directly below `r1`.
pub open spec fn spec_border_between(b: PaneBorder, r1: Rect, r2: Rect) -> bool {
    if b.vertical {
        &&& r1.x + r1.width == r2.x
        &&& spec_ranges_overlap(r1.y, r1.height, r2.y, r2.height)
        &&& b.x == r2.x
        &&& b.y == (if r1.y > r2.y {
            r1.y
        } else {
            r2.y
        })
        &&& b.length == spec_overlap_len(r1.y, r1.height, r2.y, r2.height)
    } else {
        &&& r1.y + r1.height == r2.y
        &&& spec_ranges_overlap(r1.x, r1.width, r2.x, r2.width)
        &&& b.x == (if r1.x > r2.x {
            r1.x
        } else {
            r2.x
        })
        &&& b.y == r2.y
        &&& b.length == spec_overlap_len(r1.x, r1.width, r2.x, r2.width)
    }
}

/// The border lies on the shared edge of two distinct panes of
/// `rs`, and is marked active exactly when one of the two is the
/// active pane.
pub open spec fn border_justified(b: PaneBorder, rs: Seq<(PaneId, Rect)>, active: PaneId)
    -> bool {
    exists|i: int, j: int|
        0 <= i < rs.len() && 0 <= j < rs.len() && i != j && #[trigger] spec_border_between(
            b,
            rs[i].1,
            rs[j].1,
        ) && (b.is_active == (rs[i].0 == active || rs[j].0 == active))
}

/// Every border of `bs` is justified by a pair of adjacent panes.
pub open spec fn borders_sound(bs: Seq<PaneBorder>, rs: Seq<(PaneId, Rect)>, active: PaneId)
    -> bool {
    forall|k: int| 0 <= k < bs.len() ==> border_justified(#[trigger] bs[k], rs, active)
}

/// `r2` sits directly right of `r1` and their rows overlap.
pub open spec fn right_adjacent(r1: Rect, r2: Rect) -> bool {
    r1.x + r1.width == r2.x && spec_ranges_overlap(r1.y, r1.height, r2.y, r2.height)
}

/// `r2` sits directly below `r1` and their columns overlap.
pub open spec fn below_adjacent(r1: Rect, r2: Rect) -> bool {
    r1.y + r1.height == r2.y && spec_ranges_overlap(r1.x, r1.width, r2.x, r2.width)
}

/// The vertical border along the shared edge of `r1` and `r2`.
pub open spec fn v_border_of(r1: Rect, r2: Rect, act: bool) -> PaneBorder {
    PaneBorder {
        x: r2.x,
        y: if r1.y > r2.y {
            r1.y
        } else {
            r2.y
        },
        length: spec_overlap_len(r1.y, r1.height, r2.y, r2.height) as u16,
        vertical: true,
        is_active: act,
    }
}

/// The horizontal border along the shared edge of `r1` and `r2`.
pub open spec fn h_border_of(r1: Rect, r2: Rect, act: bool) -> PaneBorder {
    PaneBorder {
        x: if r1.x > r2.x {
            r1.x
        } else {
            r2.x
        },
        y: r2.y,
        length: spec_overlap_len(r1.x, r1.width, r2.x, r2.width) as u16,
        vertical: false,
        is_active: act,
    }
}

/// The pair `(i, j)` is served: whenever the two panes are adjacent,
/// the corresponding border segment is in the list.
pub open spec fn pair_covered(
    bs: Seq<PaneBorder>,
    rs: Seq<(PaneId, Rect)>,
    active: PaneId,
    i: int,
    j: int,
) -> bool {
    let act = rs[i].0 == active || rs[j].0 == active;
    &&& (right_adjacent(rs[i].1, rs[j].1) ==> bs.contains(v_border_of(rs[i].1, rs[j].1, act)))
    &&& (below_adjacent(rs[i].1, rs[j].1) ==> bs.contains(h_border_of(rs[i].1, rs[j].1, act)))
}

/// Every adjacent pair of distinct panes yields its border.
pub open spec fn borders_complete(
    bs: Seq<PaneBorder>,
    rs: Seq<(PaneId, Rect)>,
    active: PaneId,
) -> bool {
    forall|i: int, j: int|
        0 <= i < rs.len() && 0 <= j < rs.len() && i != j ==> #[trigger] pair_covered(
            bs,
            rs,
            active,
            i,
            j,
        )
}

/// Appending a border keeps every already-served pair served.
proof fn lemma_covered_monotone(
    bs: Seq<PaneBorder>,
    b: PaneBorder,
    rs: Seq<(PaneId, Rect)>,
    active: PaneId,
)
    ensures
        forall|i: int, j: int|
            #[trigger] pair_covered(bs, rs, active, i, j) ==> pair_covered(
                bs.push(b),
                rs,
                active,
                i,
                j,
            ),
{
    assert forall|i: int, j: int| #[trigger] pair_covered(bs, rs, active, i, j) implies
        pair_covered(bs.push(b), rs, active, i, j) by {
        let act = rs[i].0 == active || rs[j].0 == active;
        if right_adjacent(rs[i].1, rs[j].1) {
            let v = v_border_of(rs[i].1, rs[j].1, act);
            let k = choose|k: int| 0 <= k < bs.len() && bs[k] == v;
            assert(bs.push(b)[k] == v);
        }
        if below_adjacent(rs[i].1, rs[j].1) {
            let h = h_border_of(rs[i].1, rs[j].1, act);
            let k = choose|k: int| 0 <= k < bs.len() && bs[k] == h;
            assert(bs.push(b)[k] == h);
        }
    }
}

/// A contained border stays contained when another is appended.
proof fn lemma_contains_push(bs: Seq<PaneBorder>, b: PaneBorder, x: PaneBorder)
    requires
        bs.contains(x),
    ensures
        bs.push(b).contains(x),
{
    let k = choose|k: int| 0 <= k < bs.len() && bs[k] == x;
    assert(bs.push(b)[k] == x);
}

/// Compute the border segments between adjacent panes of the active
/// window: exactly one segment per ordered pair of distinct panes
/// that share an edge (sound and complete). A zoomed window shows a
/// single pane, so it has no borders; neither has an empty session.
pub fn compute_borders(session: &Session, area: Rect) -> (r: Vec<PaneBorder>)
    requires
        rect_in_range(area),
    ensures
        session.windows@.len() == 0 ==> r@.len() == 0,
        session.windows@.len() > 0 && session.active_window < session.windows@.len() ==> ({
            let w = session.windows@[session.active_window as int];
            if w.zoomed {
                r@.len() == 0
            } else {
                borders_sound(r@, spec_rects(w.layout, area), w.active_pane)
                    && borders_complete(r@, spec_rects(w.layout, area), w.active_pane)
            }
        }),
{
    let mut out: Vec<PaneBorder> = Vec::new();
    let w = match session.active_win() {
        None => {
            return out;
        },
        Some(w) => w,
    };
    if w.zoomed {
        return out;
    }
    let active = w.active_pane;
    let rects = w.pane_rects(area);
    let entries = &rects.entries;
    let ghost rs = spec_rects(w.layout, area);
    let n = entries.len();
    let mut i: usize = 0;
    while i < n
        invariant
            0 <= i <= n,
            n == entries@.len(),
            entries@ == rs,
            borders_sound(out@, rs, active),
            forall|a: int, b: int|
                0 <= a < i && 0 <= b < n && a != b ==> #[trigger] pair_covered(
                    out@,
                    rs,
                    active,
                    a,
                    b,
                ),
        decreases n - i,
    {
        let mut j: usize = 0;
        while j < n
            invariant
                0 <= i < n,
                0 <= j <= n,
                n == entries@.len(),
                entries@ == rs,
                borders_sound(out@, rs, active),
                forall|a: int, b: int|
                    0 <= a < i && 0 <= b < n && a != b ==> #[trigger] pair_covered(
                        out@,
                        rs,
                        active,
                        a,
                        b,
                    ),
                forall|b: int|
                    0 <= b < j && b != i ==> #[trigger] pair_covered(
                        out@,
                        rs,
                        active,
                        i as int,
                        b,
                    ),
        decreases n - j,
        {
            let ghost out_entry = out@;
            if j != i {
                let (id1, r1) = entries[i];
                let (id2, r2) = entries[j];
                let is_active = id1.0 == active.0 || id2.0 == active.0;
                proof {
                    assert(rs[i as int] == (id1, r1) && rs[j as int] == (id2, r2));
                    assert(is_active == (rs[i as int].0 == active || rs[j as int].0 == active));
                }
                // Vertical border: r2 directly right of r1.
                if (r1.x as u32) + (r1.width as u32) == (r2.x as u32) && ranges_overlap(
                    r1.y,
                    r1.height,
                    r2.y,
                    r2.height,
                ) {
                    let b = PaneBorder {
                        x: r2.x,
                        y: if r1.y > r2.y {
                            r1.y
                        } else {
                            r2.y
                        },
                        length: overlap_len(r1.y, r1.height, r2.y, r2.height),
                        vertical: true,
                        is_active,
                    };
                    let ghost out0 = out@;
                    proof {
                        assert(right_adjacent(r1, r2));
                        assert(b == v_border_of(r1, r2, is_active));
                        assert(spec_border_between(b, rs[i as int].1, rs[j as int].1));
                    }
                    out.push(b);
                    proof {
                        assert(out@.drop_last() =~= out0);
                        lemma_borders_sound_push(out@, rs, active, i as int, j as int);
                        lemma_covered_monotone(out0, b, rs, active);
                        assert(out@[out@.len() - 1] == v_border_of(r1, r2, is_active));
                        assert(out@.contains(v_border_of(r1, r2, is_active)));
                    }
                } else {
                    proof {
                        assert(!right_adjacent(r1, r2));
                    }
                }
                proof {
                    assert(right_adjacent(r1, r2) ==> out@.contains(
                        v_border_of(r1, r2, is_active),
                    ));
                }
                // Horizontal border: r2 directly below r1.
                if (r1.y as u32) + (r1.height as u32) == (r2.y as u32) && ranges_overlap(
                    r1.x,
                    r1.width,
                    r2.x,
                    r2.width,
                ) {
                    let b = PaneBorder {
                        x: if r1.x > r2.x {
                            r1.x
                        } else {
                            r2.x
                        },
                        y: r2.y,
                        length: overlap_len(r1.x, r1.width, r2.x, r2.width),
                        vertical: false,
                        is_active,
                    };
                    let ghost out0 = out@;
                    proof {
                        assert(below_adjacent(r1, r2));
                        assert(b == h_border_of(r1, r2, is_active));
                        assert(spec_border_between(b, rs[i as int].1, rs[j as int].1));
                    }
                    out.push(b);
                    proof {
                        assert(out@.drop_last() =~= out0);
                        lemma_borders_sound_push(out@, rs, active, i as int, j as int);
                        lemma_covered_monotone(out0, b, rs, active);
                        if right_adjacent(r1, r2) {
                            lemma_contains_push(out0, b, v_border_of(r1, r2, is_active));
                        }
                        assert(out@[out@.len() - 1] == h_border_of(r1, r2, is_active));
                        assert(out@.contains(h_border_of(r1, r2, is_active)));
                    }
                } else {
                    proof {
                        assert(!below_adjacent(r1, r2));
                    }
                }
                proof {
                    assert(pair_covered(out@, rs, active, i as int, j as int));
                }
            }
            proof {
                assert forall|a: int, b: int|
                    0 <= a < i && 0 <= b < n && a != b implies #[trigger] pair_covered(
                    out@,
                    rs,
                    active,
                    a,
                    b,
                ) by {
                    assert(pair_covered(out_entry, rs, active, a, b));
                }
                assert forall|b: int| 0 <= b < j && b != i implies #[trigger] pair_covered(
                    out@,
                    rs,
                    active,
                    i as int,
                    b,
                ) by {
                    assert(pair_covered(out_entry, rs, active, i as int, b));
                }
            }
            j = j + 1;
        }
        i = i + 1;
    }
    proof {
        assert(borders_complete(out@, rs, active));
    }
    out
}

/// Pushing a border built from the pair `(i, j)` keeps the border
/// list sound.
proof fn lemma_borders_sound_push(
    bs: Seq<PaneBorder>,
    rs: Seq<(PaneId, Rect)>,
    active: PaneId,
    i: int,
    j: int,
)
    requires
        bs.len() > 0,
        borders_sound(bs.drop_last(), rs, active),
        0 <= i < rs.len(),
        0 <= j < rs.len(),
        i != j,
        spec_border_between(bs.last(), rs[i].1, rs[j].1),
        bs.last().is_active == (rs[i].0 == active || rs[j].0 == active),
    ensures
        borders_sound(bs, rs, active),
{
    assert forall|k: int| 0 <= k < bs.len() implies border_justified(
        #[trigger] bs[k],
        rs,
        active,
    ) by {
        if k < bs.len() - 1 {
            assert(bs.drop_last()[k] == bs[k]);
            assert(border_justified(bs.drop_last()[k], rs, active));
        } else {
            assert(bs[k] == bs.last());
            assert(spec_border_between(bs[k], rs[i].1, rs[j].1));
            assert(border_justified(bs[k], rs, active));
        }
    }
}

/// The status-bar text of the window at index `i` of the session.
pub open spec fn spec_session_entry_text(s: Session, i: int) -> Seq<char> {
    " "@ + crate::fmt::dec_digits(i as nat) + ":"@ + s.windows@[i].name@ + (if i
        == s.active_window {
        "*"@
    } else {
        Seq::<char>::empty()
    })
}

/// The concatenated status-bar texts of the first `n` windows.
pub open spec fn spec_session_windows_text(s: Session, n: int) -> Seq<char>
    decreases n,
{
    if n <= 0 {
        Seq::empty()
    } else {
        spec_session_windows_text(s, n - 1) + spec_session_entry_text(s, n - 1)
    }
}

/// The entry texts produced from the session's windows equal the
/// session's own window texts.
proof fn lemma_entries_text_matches(
    es: Seq<crate::statusbar::WindowEntry>,
    s: Session,
    n: int,
)
    requires
        0 <= n <= es.len(),
        es.len() == s.windows@.len(),
        forall|i: int|
            0 <= i < s.windows@.len() ==> {
                let e = #[trigger] es[i];
                e.index == i && e.name@ == s.windows@[i].name@ && e.is_active == (i
                    == s.active_window)
            },
    ensures
        crate::statusbar::spec_entries_text(es.take(n)) == spec_session_windows_text(s, n),
    decreases n,
{
    if n > 0 {
        lemma_entries_text_matches(es, s, n - 1);
        assert(es.take(n).drop_last() =~= es.take(n - 1));
        assert(es.take(n).last() == es[n - 1]);
        assert(crate::statusbar::spec_entry_text(es[n - 1]) =~= spec_session_entry_text(
            s,
            n - 1,
        ));
    } else {
        assert(es.take(0) =~= Seq::<crate::statusbar::WindowEntry>::empty());
    }
}

/// Build the status bar text line for the current session: the
/// session name in brackets, one entry per window with the active
/// one starred, and the active pane's position at the right edge.
pub fn build_status_line(session: &Session, width_cols: usize) -> (r: String)
    requires
        session.windows@.len() > 0 ==> session.active_window < session.windows@.len(),
    ensures
        ({
            let left = "["@ + session.name@ + "]"@;
            let center = spec_session_windows_text(*session, session.windows@.len() as int);
            let info: Seq<char> = if session.windows@.len() == 0 {
                Seq::empty()
            } else {
                crate::statusbar::spec_pane_info(
                    session.windows@[session.active_window as int],
                )
            };
            let used = left.len() + center.len() + info.len();
            let pad: nat = if used < width_cols {
                (width_cols - used) as nat
            } else {
                0
            };
            r@ == left + center + crate::statusbar::spec_spaces(pad) + info
        }),
{
    let content = crate::statusbar::build_status(session);
    let line = crate::statusbar::render_status_line(&content, width_cols);
    proof {
        lemma_entries_text_matches(content.windows@, *session, content.windows@.len() as int);
        assert(content.windows@.take(content.windows@.len() as int) =~= content.windows@);
    }
    line
}

} // verus!
