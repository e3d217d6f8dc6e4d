use vstd::prelude::*;

verus! {

/// Number of rows of the playfield.
pub const GRID_HEIGHT: usize = 20;

/// Number of columns of the playfield.
pub const GRID_WIDTH: usize = 10;

} // verus!
