//! What the colourings of surfaces share.

use vstd::prelude::*;
use crate::buffer::Rgb;

verus! {

/// The channels of the debugging colour, a pink that no material has.
pub open spec fn debug_pink_channels() -> (u8, u8, u8) {
    (200u8, 50u8, 200u8)
}

/// The colour shown where a surface gives no coordinates to a colouring that
/// needs them.
pub fn debug_pink() -> (rgb: Rgb)
    ensures
        rgb@ == debug_pink_channels(),
{
    Rgb::new(200, 50, 200)
}

} // verus!
