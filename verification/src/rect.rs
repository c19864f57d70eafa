//! Rectangle math for pane regions.
//!
//! All coordinates are cell units. Split ratios are thousandths of the
//! parent dimension (see [`crate::RATIO_UNIT`]), so a ratio of 500
//! gives the first child half of the parent.

use vstd::prelude::*;

verus! {

/// A rectangle defined by its top-left corner and dimensions.
#[derive(Debug, Clone, Copy, PartialEq, Eq, Structural)]
pub struct Rect {
    /// Column of the left edge.
    pub x: u16,
    /// Row of the top edge.
    pub y: u16,
    /// Width in columns.
    pub width: u16,
    /// Height in rows.
    pub height: u16,
}

/// Cells covered by a rectangle.
pub open spec fn rect_area(r: Rect) -> int {
    r.width * r.height
}

/// The right and bottom edges are still representable in cell units.
pub open spec fn rect_in_range(r: Rect) -> bool {
    r.x + r.width <= u16::MAX && r.y + r.height <= u16::MAX
}

/// `inner` lies fully inside `outer`.
pub open spec fn rect_inside(inner: Rect, outer: Rect) -> bool {
    &&& outer.x <= inner.x
    &&& inner.x + inner.width <= outer.x + outer.width
    &&& outer.y <= inner.y
    &&& inner.y + inner.height <= outer.y + outer.height
}

/// The x-intervals of `a` and `b` are disjoint, or their y-intervals are.
pub open spec fn rect_disjoint(a: Rect, b: Rect) -> bool {
    ||| a.x + a.width <= b.x
    ||| b.x + b.width <= a.x
    ||| a.y + a.height <= b.y
    ||| b.y + b.height <= a.y
}

/// Containment is transitive.
pub proof fn lemma_inside_trans(a: Rect, b: Rect, c: Rect)
    requires
        rect_inside(a, b),
        rect_inside(b, c),
    ensures
        rect_inside(a, c),
{
}

/// Rectangles inside disjoint rectangles are disjoint.
pub proof fn lemma_inside_disjoint(a: Rect, b: Rect, oa: Rect, ob: Rect)
    requires
        rect_inside(a, oa),
        rect_inside(b, ob),
        rect_disjoint(oa, ob),
    ensures
        rect_disjoint(a, b),
{
}

/// Extent (height or width) of the first child when an extent is split
/// at `ratio` thousandths: the floor of the scaled extent, clamped to
/// leave at least one cell on each side where possible.
pub open spec fn split_first_extent(extent: u16, ratio: u16) -> int {
    let clamped: int = if ratio > crate::RATIO_UNIT {
        crate::RATIO_UNIT as int
    } else {
        ratio as int
    };
    let raw: int = (extent * clamped) / (crate::RATIO_UNIT as int);
    let at_least_one: int = if raw < 1 { 1 } else { raw };
    let cap: int = if extent >= 1 { extent - 1 } else { 0 };
    if at_least_one > cap { cap } else { at_least_one }
}

/// The first extent never exceeds the whole, and both sides keep at
/// least one cell whenever the whole has at least two.
pub proof fn lemma_split_first_extent_bounds(extent: u16, ratio: u16)
    ensures
        0 <= split_first_extent(extent, ratio) <= extent,
        extent >= 2 ==> 1 <= split_first_extent(extent, ratio) <= extent - 1,
{
    let clamped: int = if ratio > 1000 { 1000 } else { ratio as int };
    assert(extent * clamped >= 0) by (nonlinear_arith)
        requires 0 <= extent && 0 <= clamped;
    assert(extent * clamped <= extent * 1000) by (nonlinear_arith)
        requires 0 <= extent && clamped <= 1000;
    assert((extent * 1000) / 1000 == extent);
    assert((extent * clamped) / 1000 <= (extent * 1000) / 1000) by (nonlinear_arith)
        requires extent * clamped <= extent * 1000;
}

impl Rect {
    /// Create a new rectangle.
    pub fn new(x: u16, y: u16, width: u16, height: u16) -> (r: Rect)
        ensures
            r == (Rect { x, y, width, height }),
    {
        Rect { x, y, width, height }
    }

    /// The point `(col, row)` lies in the half-open cell intervals of
    /// this rectangle; the right and bottom bounds saturate at the
    /// largest cell coordinate.
    pub open spec fn spec_contains(self, col: u16, row: u16) -> bool {
        let x_end: int = if self.x + self.width > u16::MAX { u16::MAX as int } else {
            self.x + self.width
        };
        let y_end: int = if self.y + self.height > u16::MAX { u16::MAX as int } else {
            self.y + self.height
        };
        self.x <= col && (col as int) < x_end && self.y <= row && (row as int) < y_end
    }

    /// Whether this rectangle contains the given point.
    pub fn contains(&self, col: u16, row: u16) -> (r: bool)
        ensures
            r == self.spec_contains(col, row),
    {
        let x_end: u32 = self.x as u32 + self.width as u32;
        let x_end: u32 = if x_end > 65535 { 65535 } else { x_end };
        let y_end: u32 = self.y as u32 + self.height as u32;
        let y_end: u32 = if y_end > 65535 { 65535 } else { y_end };
        col >= self.x && (col as u32) < x_end && row >= self.y && (row as u32) < y_end
    }

    /// Split horizontally (top/bottom) at `ratio` thousandths.
    ///
    /// Returns `(top, bottom)`.
    pub fn split_horizontal(&self, ratio: u16) -> (r: (Rect, Rect))
        requires
            rect_in_range(*self),
        ensures
            r == self.spec_split_horizontal(ratio),
            r.0.height + r.1.height == self.height,
            rect_inside(r.0, *self) && rect_inside(r.1, *self),
            rect_in_range(r.0) && rect_in_range(r.1),
            self.height >= 2 ==> r.0.height >= 1 && r.1.height >= 1,
    {
        proof {
            lemma_split_first_extent_bounds(self.height, ratio);
        }
        let clamped: u32 = if ratio > crate::RATIO_UNIT {
            crate::RATIO_UNIT as u32
        } else {
            ratio as u32
        };
        assert(self.height * clamped <= 65535 * 1000) by (nonlinear_arith)
            requires self.height <= 65535 && clamped <= 1000;
        let raw: u32 = (self.height as u32 * clamped) / (crate::RATIO_UNIT as u32);
        let at_least_one: u32 = if raw < 1 { 1 } else { raw };
        let cap: u32 = if self.height >= 1 { (self.height - 1) as u32 } else { 0 };
        let top_h: u16 = (if at_least_one > cap { cap } else { at_least_one }) as u16;
        let bottom_h: u16 = self.height - top_h;

        let top = Rect { x: self.x, y: self.y, width: self.width, height: top_h };
        let bottom = Rect {
            x: self.x,
            y: self.y + top_h,
            width: self.width,
            height: bottom_h,
        };
        (top, bottom)
    }

    /// The pair of rectangles a horizontal split produces.
    pub open spec fn spec_split_horizontal(self, ratio: u16) -> (Rect, Rect) {
        let top_h: int = split_first_extent(self.height, ratio);
        (
            Rect { x: self.x, y: self.y, width: self.width, height: top_h as u16 },
            Rect {
                x: self.x,
                y: (self.y + top_h) as u16,
                width: self.width,
                height: (self.height - top_h) as u16,
            },
        )
    }

    /// Split vertically (left/right) at `ratio` thousandths.
    ///
    /// Returns `(left, right)`.
    pub fn split_vertical(&self, ratio: u16) -> (r: (Rect, Rect))
        requires
            rect_in_range(*self),
        ensures
            r == self.spec_split_vertical(ratio),
            r.0.width + r.1.width == self.width,
            rect_inside(r.0, *self) && rect_inside(r.1, *self),
            rect_in_range(r.0) && rect_in_range(r.1),
            self.width >= 2 ==> r.0.width >= 1 && r.1.width >= 1,
    {
        proof {
            lemma_split_first_extent_bounds(self.width, ratio);
        }
        let clamped: u32 = if ratio > crate::RATIO_UNIT {
            crate::RATIO_UNIT as u32
        } else {
            ratio as u32
        };
        assert(self.width * clamped <= 65535 * 1000) by (nonlinear_arith)
            requires self.width <= 65535 && clamped <= 1000;
        let raw: u32 = (self.width as u32 * clamped) / (crate::RATIO_UNIT as u32);
        let at_least_one: u32 = if raw < 1 { 1 } else { raw };
        let cap: u32 = if self.width >= 1 { (self.width - 1) as u32 } else { 0 };
        let left_w: u16 = (if at_least_one > cap { cap } else { at_least_one }) as u16;
        let right_w: u16 = self.width - left_w;

        let left = Rect { x: self.x, y: self.y, width: left_w, height: self.height };
        let right = Rect {
            x: self.x + left_w,
            y: self.y,
            width: right_w,
            height: self.height,
        };
        (left, right)
    }

    /// The pair of rectangles a vertical split produces.
    pub open spec fn spec_split_vertical(self, ratio: u16) -> (Rect, Rect) {
        let left_w: int = split_first_extent(self.width, ratio);
        (
            Rect { x: self.x, y: self.y, width: left_w as u16, height: self.height },
            Rect {
                x: (self.x + left_w) as u16,
                y: self.y,
                width: (self.width - left_w) as u16,
                height: self.height,
            },
        )
    }
}

/// The two halves of a horizontal split tile the parent: they are
/// disjoint, inside it, and their areas sum to the parent's.
pub proof fn lemma_split_horizontal_tiles(parent: Rect, ratio: u16)
    requires
        rect_in_range(parent),
    ensures
        ({
            let (top, bottom) = parent.spec_split_horizontal(ratio);
            &&& rect_disjoint(top, bottom)
            &&& rect_inside(top, parent) && rect_inside(bottom, parent)
            &&& rect_in_range(top) && rect_in_range(bottom)
            &&& rect_area(top) + rect_area(bottom) == rect_area(parent)
        }),
{
    lemma_split_first_extent_bounds(parent.height, ratio);
    let (top, bottom) = parent.spec_split_horizontal(ratio);
    assert(top.width * top.height + bottom.width * bottom.height == parent.width
        * parent.height) by (nonlinear_arith)
        requires
            top.width == parent.width,
            bottom.width == parent.width,
            top.height + bottom.height == parent.height;
}

/// The two halves of a vertical split tile the parent.
pub proof fn lemma_split_vertical_tiles(parent: Rect, ratio: u16)
    requires
        rect_in_range(parent),
    ensures
        ({
            let (left, right) = parent.spec_split_vertical(ratio);
            &&& rect_disjoint(left, right)
            &&& rect_inside(left, parent) && rect_inside(right, parent)
            &&& rect_in_range(left) && rect_in_range(right)
            &&& rect_area(left) + rect_area(right) == rect_area(parent)
        }),
{
    lemma_split_first_extent_bounds(parent.width, ratio);
    let (left, right) = parent.spec_split_vertical(ratio);
    assert(left.width * left.height + right.width * right.height == parent.width
        * parent.height) by (nonlinear_arith)
        requires
            left.height == parent.height,
            right.height == parent.height,
            left.width + right.width == parent.width;
}

} // verus!
