//! The rule that decides a pixel's final colour from its escape count.

use vstd::prelude::*;

verus! {

/// The colour a pixel gets, given its escape count and the colour the
/// gradient stage computed for it.
///
/// An escape count of 0 (the point escaped at once) and of 255 (the point is
/// presumed in the set) both map to pure black; every other count keeps the
/// gradient colour unchanged.
pub fn select_pixel_color(escape_count: u8, gradient: (u8, u8, u8)) -> (c: (u8, u8, u8))
    ensures
        c == (if escape_count == 0 || escape_count == 255 {
            (0u8, 0u8, 0u8)
        } else {
            gradient
        }),
{
    if escape_count == 255 || escape_count == 0 {
        (0, 0, 0)
    } else {
        gradient
    }
}

} // verus!
