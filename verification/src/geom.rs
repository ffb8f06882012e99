//! Integer geometry: positions, rectangles, margins, alignment and the
//! axis transposition used when rows act as columns.
//!
//! Coordinates are `i64` layout units. The reflection that implements the
//! transposition swaps the two axes of a rectangle around a focal point; it
//! is a pure geometric transform and an involution.

use vstd::prelude::*;
use crate::sizing::LEN_LIMIT;

verus! {

/// Bound on the magnitude of any rectangle coordinate the flattener works
/// with. Far below `i64::MAX`, so a bounded number of additions cannot
/// overflow.
pub const COORD_LIMIT: i64 = 0x2000_0000_0000_0000;

/// Headroom one level of grid nesting may add to a coordinate: alignment
/// offset, cell walk, reflection and margins together stay below this.
pub const DRIFT_LIMIT: i64 = 0x4000_0000_0000;

/// A point, in layout units.
#[derive(Clone, Copy, PartialEq, Eq, Structural, Debug)]
pub struct Pos2 {
    pub x: i64,
    pub y: i64,
}

/// A two-component vector, used for spacing.
#[derive(Clone, Copy, PartialEq, Eq, Structural, Debug)]
pub struct Vec2 {
    pub x: i64,
    pub y: i64,
}

impl Vec2 {
    /// Both components bounded.
    pub open spec fn wf(self) -> bool {
        -LEN_LIMIT <= self.x <= LEN_LIMIT && -LEN_LIMIT <= self.y <= LEN_LIMIT
    }

    /// The zero vector.
    pub fn zero() -> (v: Vec2)
        ensures
            v == (Vec2 { x: 0, y: 0 }),
            v.wf(),
    {
        Vec2 { x: 0, y: 0 }
    }
}

/// An axis-aligned rectangle between two corners.
#[derive(Clone, Copy, PartialEq, Eq, Structural, Debug)]
pub struct Rect {
    pub min: Pos2,
    pub max: Pos2,
}

/// A rectangle with unbounded integer corners, the mathematical model of
/// [`Rect`].
pub ghost struct RectG {
    pub x0: int,
    pub y0: int,
    pub x1: int,
    pub y1: int,
}

impl RectG {
    /// Horizontal extent.
    pub open spec fn width(self) -> int {
        self.x1 - self.x0
    }

    /// Vertical extent.
    pub open spec fn height(self) -> int {
        self.y1 - self.y0
    }
}

impl View for Rect {
    type V = RectG;

    open spec fn view(&self) -> RectG {
        RectG { x0: self.min.x as int, y0: self.min.y as int, x1: self.max.x as int, y1: self.max.y as int }
    }
}

impl Rect {
    /// Build a rectangle from its four coordinates.
    pub fn new(x0: i64, y0: i64, x1: i64, y1: i64) -> (r: Rect)
        ensures
            r == (Rect { min: Pos2 { x: x0, y: y0 }, max: Pos2 { x: x1, y: y1 } }),
    {
        Rect { min: Pos2 { x: x0, y: y0 }, max: Pos2 { x: x1, y: y1 } }
    }

    /// Horizontal extent.
    pub fn width(&self) -> (w: i64)
        requires
            -COORD_LIMIT <= self.min.x <= COORD_LIMIT,
            -COORD_LIMIT <= self.max.x <= COORD_LIMIT,
        ensures
            w as int == self@.width(),
    {
        self.max.x - self.min.x
    }

    /// Vertical extent.
    pub fn height(&self) -> (h: i64)
        requires
            -COORD_LIMIT <= self.min.y <= COORD_LIMIT,
            -COORD_LIMIT <= self.max.y <= COORD_LIMIT,
        ensures
            h as int == self@.height(),
    {
        self.max.y - self.min.y
    }
}

/// Per-cell inward inset, applied after placement.
#[derive(Clone, Copy, PartialEq, Eq, Structural, Debug)]
pub struct Margin {
    pub left: i64,
    pub top: i64,
    pub right: i64,
    pub bottom: i64,
}

impl Margin {
    /// Every side bounded.
    pub open spec fn wf(self) -> bool {
        &&& -LEN_LIMIT <= self.left <= LEN_LIMIT
        &&& -LEN_LIMIT <= self.top <= LEN_LIMIT
        &&& -LEN_LIMIT <= self.right <= LEN_LIMIT
        &&& -LEN_LIMIT <= self.bottom <= LEN_LIMIT
    }

    /// The same inset on all four sides.
    pub fn same(v: i64) -> (m: Margin)
        requires
            -LEN_LIMIT <= v <= LEN_LIMIT,
        ensures
            m == (Margin { left: v, top: v, right: v, bottom: v }),
            m.wf(),
    {
        Margin { left: v, top: v, right: v, bottom: v }
    }

    /// No inset at all.
    pub fn zero() -> (m: Margin)
        ensures
            m == (Margin { left: 0, top: 0, right: 0, bottom: 0 }),
            m.wf(),
    {
        Margin { left: 0, top: 0, right: 0, bottom: 0 }
    }
}

/// Where a row's cells sit when they underfill the row.
#[derive(Clone, Copy, PartialEq, Eq, Structural, Debug)]
pub enum Align {
    /// Left (no offset).
    Min,
    /// Centered in the leftover space.
    Center,
    /// Right (all leftover space on the left).
    Max,
}

/// Main-axis direction of a content layout.
#[derive(Clone, Copy, PartialEq, Eq, Structural, Debug)]
pub enum Direction {
    LeftToRight,
    RightToLeft,
    TopDown,
    BottomUp,
}

/// Content layout direction for one cell. The grid never inspects it; it is
/// carried through to the placement descriptor for the host to use.
#[derive(Clone, Copy, PartialEq, Eq, Structural, Debug)]
pub struct Layout {
    pub main_dir: Direction,
    pub main_wrap: bool,
    pub main_align: Align,
    pub main_justify: bool,
    pub cross_align: Align,
    pub cross_justify: bool,
}

impl Default for Layout {
    /// Top-down flow, centered on the main axis, left-aligned across it.
    fn default() -> (l: Layout)
        ensures
            l == Layout::standard(),
    {
        Layout {
            main_dir: Direction::TopDown,
            main_wrap: false,
            main_align: Align::Center,
            main_justify: false,
            cross_align: Align::Min,
            cross_justify: false,
        }
    }
}

impl Layout {
    /// The layout cells get when nothing else was configured.
    pub open spec fn standard() -> Layout {
        Layout {
            main_dir: Direction::TopDown,
            main_wrap: false,
            main_align: Align::Center,
            main_justify: false,
            cross_align: Align::Min,
            cross_justify: false,
        }
    }
}

/// Axis swap of a rectangle around a focal point: the offset of each corner
/// from the focal point has its components exchanged, and width and height
/// trade places.
pub open spec fn reflect_g(input: RectG, fx: int, fy: int) -> RectG {
    let ox = input.x0 - fx;
    let oy = input.y0 - fy;
    RectG {
        x0: fx + oy,
        y0: fy + ox,
        x1: fx + oy + input.height(),
        y1: fy + ox + input.width(),
    }
}

/// Reflecting twice about the same focal point gives the rectangle back,
/// and one reflection swaps width and height while keeping the corner
/// offsets transposed.
pub proof fn lemma_reflect_involution(input: RectG, fx: int, fy: int)
    ensures
        reflect_g(reflect_g(input, fx, fy), fx, fy) == input,
        reflect_g(input, fx, fy).width() == input.height(),
        reflect_g(input, fx, fy).height() == input.width(),
{
}

/// Reflect a rectangle about a focal point, swapping the two axes. Rows
/// placed left-to-right below each other thereby become columns placed
/// top-down beside each other.
pub fn reflect(input: Rect, focal: Pos2) -> (r: Rect)
    requires
        -COORD_LIMIT <= focal.x <= COORD_LIMIT,
        -COORD_LIMIT <= focal.y <= COORD_LIMIT,
        focal.x - DRIFT_LIMIT <= input.min.x <= focal.x + DRIFT_LIMIT,
        focal.y - DRIFT_LIMIT <= input.min.y <= focal.y + DRIFT_LIMIT,
        focal.x - DRIFT_LIMIT <= input.max.x <= focal.x + DRIFT_LIMIT,
        focal.y - DRIFT_LIMIT <= input.max.y <= focal.y + DRIFT_LIMIT,
    ensures
        r@ == reflect_g(input@, focal.x as int, focal.y as int),
{
    let ox = input.min.x - focal.x;
    let oy = input.min.y - focal.y;
    let w = input.max.x - input.min.x;
    let h = input.max.y - input.min.y;
    Rect {
        min: Pos2 { x: focal.x + oy, y: focal.y + ox },
        max: Pos2 { x: focal.x + oy + h, y: focal.y + ox + w },
    }
}

/// Exchange the spacing components when rows act as columns, so that the
/// primary-axis spacing follows the primary axis.
pub fn swap_spacing(spacing: Vec2, swap: bool) -> (r: Vec2)
    ensures
        r == (if swap { Vec2 { x: spacing.y, y: spacing.x } } else { spacing }),
{
    if swap {
        Vec2 { x: spacing.y, y: spacing.x }
    } else {
        spacing
    }
}

} // verus!
