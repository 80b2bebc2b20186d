use vstd::prelude::*;

verus! {

/// Side length of a square chunk, in cells.
pub const CHUNK_LENGTH: usize = 64;

/// Number of cells in one chunk.
pub const CHUNK_LEN: usize = 64 * 64;

/// Cells across one side of a 3x3 chunk window.
pub const WINDOW_LENGTH: usize = 3 * 64;

/// Fixed simulation step, in microseconds of accumulated world time.
pub const UPDATE_TIME: u64 = 16666;

/// Screen pixels per cell, used when mapping pointer positions to cells.
pub const ATOM_SIZE: usize = 4;

/// Upper bound on the grid's width and height, in chunks.
pub const MAX_GRID_DIM: usize = 1024;

} // verus!
