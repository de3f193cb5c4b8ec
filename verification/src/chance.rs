//! The game's one source of chance.

use vstd::prelude::*;

verus! {

/// A magnitude up to which whole numbers, and the difference of any two of
/// them, are exact in double precision.
pub const EXACT_LIMIT: i64 = 0x10_0000_0000_0000;

/// Draws a number with `macroquad::rand::gen_range`, the pseudo-random
/// generator of the `macroquad` game library.
///
/// This function is not verified: its contract is taken on trust. The
/// generator scales a 32-bit draw into the span between its two bounds in
/// double precision and cuts off the fraction. While the bounds and their
/// difference are exact doubles no rounding step can leave the span, so the
/// contract claims that the result lies between the bounds, both ends
/// included, in whichever order they are given. It claims nothing for larger
/// bounds, and nothing about which number of the span comes.
#[verifier::external_body]
pub(crate) fn draw_between(low: i64, high: i64) -> (drawn: i64)
    ensures
        -EXACT_LIMIT <= low <= EXACT_LIMIT && -EXACT_LIMIT <= high <= EXACT_LIMIT ==> {
            &&& low <= drawn || high <= drawn
            &&& drawn <= low || drawn <= high
        },
{
    macroquad::rand::gen_range(low, high)
}

} // verus!
