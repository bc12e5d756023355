//! Rectangles of character cells.

use vstd::prelude::*;

verus! {

/// A rectangle of character cells: its top-left corner and its size.
///
/// The cells of a rectangle are those with `left <= x < right` and
/// `top <= y < bottom`. Edges that would lie beyond the largest coordinate
/// are clamped to it.
#[derive(Clone, Copy, Debug, PartialEq, Eq, Hash, Structural)]
pub struct Rect {
    pub x: u16,
    pub y: u16,
    pub width: u16,
    pub height: u16,
}

impl Rect {
    /// The first column right of the rectangle, clamped to the largest coordinate.
    pub open spec fn spec_right(self) -> u16 {
        if self.x + self.width <= u16::MAX {
            (self.x + self.width) as u16
        } else {
            u16::MAX
        }
    }

    /// The first row below the rectangle, clamped to the largest coordinate.
    pub open spec fn spec_bottom(self) -> u16 {
        if self.y + self.height <= u16::MAX {
            (self.y + self.height) as u16
        } else {
            u16::MAX
        }
    }

    /// The number of columns the rectangle has cells in: its width, unless
    /// that reaches beyond the coordinate range.
    pub open spec fn cell_columns(self) -> int {
        self.spec_right() - self.x
    }

    /// The number of rows the rectangle has cells in: its height, unless that
    /// reaches beyond the coordinate range.
    pub open spec fn cell_rows(self) -> int {
        self.spec_bottom() - self.y
    }

    /// Both far edges lie within the coordinate range, so nothing is clamped.
    pub open spec fn fits(self) -> bool {
        self.x + self.width <= u16::MAX && self.y + self.height <= u16::MAX
    }

    /// The rectangle holds no cell.
    pub open spec fn spec_is_empty(self) -> bool {
        self.width == 0 || self.height == 0
    }

    /// The cell `(x, y)` belongs to the rectangle.
    pub open spec fn spec_contains(self, x: int, y: int) -> bool {
        self.x <= x < self.spec_right() && self.y <= y < self.spec_bottom()
    }

    /// Every cell of `self` is a cell of `outer`, and the edges of `self`
    /// lie between those of `outer`.
    pub open spec fn within(self, outer: Rect) -> bool {
        &&& outer.x <= self.x
        &&& self.x + self.width <= outer.spec_right()
        &&& outer.y <= self.y
        &&& self.y + self.height <= outer.spec_bottom()
    }

    /// A rectangle at `(x, y)`; the width and the height are cut down so that
    /// the far edges stay within the coordinate range.
    pub fn new(x: u16, y: u16, width: u16, height: u16) -> (r: Rect)
        ensures
            r.x == x,
            r.y == y,
            r.width == (if x + width <= u16::MAX { width as int } else { u16::MAX - x }),
            r.height == (if y + height <= u16::MAX { height as int } else { u16::MAX - y }),
            r.fits(),
    {
        let max_width: u16 = u16::MAX - x;
        let max_height: u16 = u16::MAX - y;
        Rect {
            x,
            y,
            width: if width > max_width { max_width } else { width },
            height: if height > max_height { max_height } else { height },
        }
    }

    /// The leftmost column.
    pub fn left(self) -> (v: u16)
        ensures
            v == self.x,
    {
        self.x
    }

    /// The first column right of the rectangle.
    #[verifier::when_used_as_spec(spec_right)]
    pub fn right(self) -> (v: u16)
        ensures
            v == self.spec_right(),
    {
        self.x.saturating_add(self.width)
    }

    /// The topmost row.
    pub fn top(self) -> (v: u16)
        ensures
            v == self.y,
    {
        self.y
    }

    /// The first row below the rectangle.
    #[verifier::when_used_as_spec(spec_bottom)]
    pub fn bottom(self) -> (v: u16)
        ensures
            v == self.spec_bottom(),
    {
        self.y.saturating_add(self.height)
    }

    /// Whether the rectangle holds no cell.
    #[verifier::when_used_as_spec(spec_is_empty)]
    pub fn is_empty(self) -> (b: bool)
        ensures
            b == self.spec_is_empty(),
    {
        self.width == 0 || self.height == 0
    }

    /// Whether the cell `(x, y)` belongs to the rectangle.
    pub fn contains(self, x: u16, y: u16) -> (b: bool)
        ensures
            b == self.spec_contains(x as int, y as int),
    {
        x >= self.x && x < self.right() && y >= self.y && y < self.bottom()
    }
}

} // verus!
