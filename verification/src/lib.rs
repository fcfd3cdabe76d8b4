//! A tiny 3-D wireframe rendering pipeline for terminal ASCII art.
//!
//! The library covers the integer part of the pipeline: rasterizing line
//! segments onto a pixel grid, projecting fixed-point 3-D vertices onto
//! 2-D screen coordinates, compositing the cube's edges into a character
//! frame, and the cube's constant topology. Floating-point rotation and
//! terminal I/O live outside the library.

use vstd::prelude::*;

pub mod raster;
pub mod model;
pub mod frame;
pub mod project;

verus! {

/// Height left for the drawing area once two rows are reserved for the
/// status line, clamped so a tiny terminal never underflows.
pub fn frame_height(rows: usize) -> (r: usize)
    ensures
        r == if rows >= 2 { rows - 2 } else { 0int },
{
    if rows >= 2 {
        rows - 2
    } else {
        0
    }
}

} // verus!
