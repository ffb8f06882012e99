//! The sequential consumer of resolved placements.
//!
//! A [`Grid`] holds the flattened placement descriptors and a cursor. The
//! caller takes one slot per call, in creation order; the grid tracks the
//! running maximum corner of all consumed rectangles so the host can
//! reserve exactly the space that was used. Taking more slots than were
//! pre-allocated is refused with the pre-allocated count.

use vstd::prelude::*;
use crate::builder::PureCell;
use crate::geom::Pos2;

verus! {

/// A collection of resolved grid cells, consumed in order.
pub struct Grid {
    pub cells: Vec<PureCell>,
    pub pointer: usize,
    pub bounds: Pos2,
}

/// The running maximum corner after consuming one more rectangle.
pub open spec fn grown_bounds(bounds: Pos2, cell: PureCell) -> Pos2 {
    Pos2 {
        x: if cell.rect.max.x > bounds.x {
            cell.rect.max.x
        } else {
            bounds.x
        },
        y: if cell.rect.max.y > bounds.y {
            cell.rect.max.y
        } else {
            bounds.y
        },
    }
}

impl Grid {
    /// A fresh consumer over a list of resolved placements, starting at
    /// the first slot with an empty bounding corner.
    pub fn new(cells: Vec<PureCell>) -> (g: Grid)
        ensures
            g.cells == cells,
            g.pointer == 0,
            g.bounds == (Pos2 { x: 0, y: 0 }),
    {
        Grid { cells, pointer: 0, bounds: Pos2 { x: 0, y: 0 } }
    }

    /// Take the next slot for content: hand out its placement descriptor,
    /// grow the running bounds by its rectangle and advance the cursor.
    ///
    /// Taking more slots than were pre-allocated is a fatal caller error:
    /// the caller's content code disagrees with its own layout declaration,
    /// and there is no placement left to hand out. Verified callers are
    /// held to the precondition; a caller outside that discipline gets the
    /// pre-allocated count back as the error, with the consumer unchanged.
    pub fn cell(&mut self) -> (r: Result<PureCell, usize>)
        requires
            old(self).pointer < old(self).cells@.len(),
        ensures
            r == Result::<PureCell, usize>::Ok(old(self).cells@[old(self).pointer as int]),
            final(self).pointer == old(self).pointer + 1,
            final(self).bounds == grown_bounds(
                old(self).bounds,
                old(self).cells@[old(self).pointer as int],
            ),
            final(self).cells == old(self).cells,
    {
        if self.pointer >= self.cells.len() {
            return Result::Err(self.cells.len());
        }
        let cell = self.cells[self.pointer];
        if cell.rect.max.x > self.bounds.x {
            self.bounds.x = cell.rect.max.x;
        }
        if cell.rect.max.y > self.bounds.y {
            self.bounds.y = cell.rect.max.y;
        }
        self.pointer = self.pointer + 1;
        Result::Ok(cell)
    }

    /// Take the next slot without content: the slot still occupies its
    /// space and grows the running bounds, but nothing is handed out.
    /// Over-consuming is the same fatal caller error as for [`Self::cell`].
    pub fn empty(&mut self) -> (r: Result<(), usize>)
        requires
            old(self).pointer < old(self).cells@.len(),
        ensures
            r == Result::<(), usize>::Ok(()),
            final(self).pointer == old(self).pointer + 1,
            final(self).bounds == grown_bounds(
                old(self).bounds,
                old(self).cells@[old(self).pointer as int],
            ),
            final(self).cells == old(self).cells,
    {
        match self.cell() {
            Result::Ok(_) => Result::Ok(()),
            Result::Err(n) => Result::Err(n),
        }
    }

    /// The running maximum corner of all consumed rectangles.
    pub fn bounds(&self) -> (b: Pos2)
        ensures
            b == self.bounds,
    {
        self.bounds
    }

    /// How many slots were pre-allocated in total.
    pub fn preallocated(&self) -> (n: usize)
        ensures
            n == self.cells@.len(),
    {
        self.cells.len()
    }
}

} // verus!
