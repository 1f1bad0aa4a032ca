//! The smallest terminal the interactive view is laid out for.
use vstd::prelude::*;

verus! {

/// Fewest columns the view needs.
pub const MIN_WIDTH: u16 = 80;

/// Fewest rows the view needs.
pub const MIN_HEIGHT: u16 = 30;

/// Whether a terminal of `width` columns and `height` rows is large enough.
pub fn fits_minimum_size(width: u16, height: u16) -> (r: bool)
    ensures
        r == (width >= MIN_WIDTH && height >= MIN_HEIGHT),
{
    width >= MIN_WIDTH && height >= MIN_HEIGHT
}

} // verus!
