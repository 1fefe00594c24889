//! Frame geometry: how terminal cells relate to noise-space coordinates.
//!
//! One frame paints every cell of the viewport, row-major. A cell's position
//! along an axis is the exact fraction `index / (extent - 1)`; an axis of
//! one cell collapses the fraction to zero instead of dividing by zero. The
//! time coordinate of a frame wraps every `2^32` milliseconds so that it
//! never grows without bound.

use vstd::prelude::*;

verus! {

/// Number of cells a viewport of `w` by `h` character cells holds.
pub open spec fn cell_count_of(w: u16, h: u16) -> int {
    w * h
}

/// Computes how many cells one frame on a `width` by `height` viewport
/// paints: exactly `width * height`; in particular a zero dimension gives
/// an empty frame and a one-by-one viewport exactly one cell.
pub fn frame_cell_count(width: u16, height: u16) -> (n: u64)
    ensures
        n == cell_count_of(width, height),
{
    proof {
        assert((width as int) * (height as int) <= 0xFFFF * 0xFFFF) by (nonlinear_arith)
            requires
                width <= 0xFFFF,
                height <= 0xFFFF,
        ;
    }
    (width as u64) * (height as u64)
}

/// The position of cell `idx` along an axis of `extent` cells, as the exact
/// fraction numerator / denominator of the way from one edge to the other.
pub open spec fn axis_fraction_of(idx: u16, extent: u16) -> (int, int) {
    if extent <= 1 {
        (0, 1)
    } else {
        (idx as int, extent - 1)
    }
}

/// Computes the fraction of the way that cell `idx` lies along an axis of
/// `extent` cells: `idx / (extent - 1)` as an exact numerator-denominator
/// pair. The denominator is never zero: a degenerate axis of one cell (or
/// none) yields the fraction zero rather than `0 / 0`.
pub fn cell_fraction(idx: u16, extent: u16) -> (fr: (u16, u16))
    ensures
        (fr.0 as int, fr.1 as int) == axis_fraction_of(idx, extent),
        fr.1 >= 1,
{
    if extent <= 1 {
        (0, 1)
    } else {
        (idx, extent - 1)
    }
}

/// The frame time coordinate: milliseconds since the epoch, wrapped to the
/// `2^32` milliseconds the animation cycles through.
pub open spec fn wrapped_millis_of(t: u128) -> int {
    t as int % 0x1_0000_0000
}

/// Wraps an absolute millisecond count to the animation's time coordinate,
/// `t mod 2^32`, so the coordinate handed to the noise field stays bounded.
pub fn wrap_time(t: u128) -> (w: u64)
    ensures
        w == wrapped_millis_of(t),
{
    (t % 0x1_0000_0000) as u64
}

} // verus!
