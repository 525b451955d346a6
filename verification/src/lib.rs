//! Terminal TV-listings library: broadcast-day arithmetic, program-entry
//! extraction, and display-width-aware text layout for schedule rendering.
use vstd::prelude::*;

pub mod area;
pub mod clock;
pub mod extract;
pub mod fetch;
pub mod program;
pub mod render;
pub mod text;
pub mod width;

verus! {

/// The fixed display width of one grid column, in terminal cells.
pub const CELL_WIDTH: usize = 20;

/// The fixed display width of the hour gutter at the left of the grid.
pub const GUTTER_WIDTH: usize = 11;

} // verus!
