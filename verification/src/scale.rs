//! The fixed-point scales of the game and the limits within which its
//! arithmetic is exact.

use vstd::prelude::*;

verus! {

/// Distance ticks in one screen unit.
pub const UNIT: i64 = 1_000_000;

/// Velocity ticks in one screen unit per second.
pub const PER_SECOND: i64 = 1_000;

/// The widest and tallest screen the game is played on, in distance ticks.
pub const SCREEN_LIMIT: i64 = 1_000_000 * UNIT;

/// The longest frame the game advances by in one step, in milliseconds.
pub const FRAME_LIMIT: u32 = 60_000;

/// Whether `extent` can be the width or height of a screen.
pub open spec fn is_extent(extent: i64) -> bool {
    0 <= extent <= SCREEN_LIMIT
}

/// `v` brought into `[lo, hi]`: the point of that interval nearest to `v`.
pub open spec fn clamped(v: int, lo: int, hi: int) -> int {
    if v < lo {
        lo
    } else if v > hi {
        hi
    } else {
        v
    }
}

/// A product is no larger than the product of its factors' bounds.
pub proof fn lemma_product_within(a: int, b: int, a_limit: int, b_limit: int)
    by (nonlinear_arith)
    requires
        -a_limit <= a <= a_limit,
        0 <= b <= b_limit,
    ensures
        -(a_limit * b_limit) <= a * b <= a_limit * b_limit,
{
}

} // verus!
