//! Declarative grid layouts resolved to concrete placement rectangles.
//!
//! A [`GridBuilder`] accumulates rows of cells, each with its own sizing
//! rule, alignment, margin and optional nested grid. Resolving the builder
//! against a bounding rectangle produces a flat, ordered list of placement
//! rectangles, which a [`Grid`] hands out one by one.
//!
//! All geometry is integer-valued: positions, lengths, margins and spacing
//! are `i64` layout units, so every step of the resolution is exact.

pub mod builder;
pub mod geom;
pub mod grid;
pub mod sizing;

pub use crate::builder::{GridBuilder, PureCell};
pub use crate::geom::{Align, Direction, Layout, Margin, Pos2, Rect, Vec2};
pub use crate::grid::Grid;
pub use crate::sizing::{Size, Sizing};
