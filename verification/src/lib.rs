//! Conway's Game of Life on a fixed-size square grid, with a pixel
//! renderer for it. The automaton — the grid, the Moore-neighborhood
//! counting, the synchronous transition rule, and the frame-driven
//! controller — is verified, as is the drawing into the flat
//! framebuffer. Opening a window, polling the keyboard and presenting
//! the buffer stay outside the library.

pub mod game;
pub mod glyphs;
pub mod laws;
pub mod render;
pub mod rng;

use vstd::prelude::*;

verus! {

/// Number of cells per row and per column of the simulation grid.
pub const CELL_COUNT: usize = 32;

/// A cell is live with probability `PROB_NUM / PROB_DEN` in a freshly
/// randomized grid.
pub const PROB_NUM: u64 = 1;
pub const PROB_DEN: u64 = 20;

} // verus!
