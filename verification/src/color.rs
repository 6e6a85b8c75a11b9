//! Side-to-move colours, encoded as small integers.

use vstd::prelude::*;

verus! {

pub const WHITE: usize = 0;
pub const BLACK: usize = 1;

/// True exactly for the two valid colour codes.
pub fn colour_is_ok(colour: usize) -> (r: bool)
    ensures
        r == (colour == WHITE || colour == BLACK),
{
    colour == BLACK || colour == WHITE
}

/// True exactly when `colour` is the black side.
pub fn colour_is_black(colour: usize) -> (r: bool)
    requires
        colour == WHITE || colour == BLACK,
    ensures
        r == (colour == BLACK),
{
    colour == BLACK
}

/// True exactly when `colour` is the white side.
pub fn colour_is_white(colour: usize) -> (r: bool)
    requires
        colour == WHITE || colour == BLACK,
    ensures
        r == (colour == WHITE),
{
    colour == WHITE
}

} // verus!
