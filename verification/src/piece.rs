//! Piece kinds and their "polyglot" numbering, which interleaves colour
//! with kind (black first) and is what the hashing scheme indexes by.

use vstd::prelude::*;
use crate::color;

verus! {

pub const PAWN: usize = 0;
pub const KNIGHT: usize = 1;
pub const BISHOP: usize = 2;
pub const ROOK: usize = 3;
pub const QUEEN: usize = 4;
pub const KING: usize = 5;

pub const BLACK_PAWN: usize = 0;
pub const WHITE_PAWN: usize = 1;
pub const BLACK_KNIGHT: usize = 2;
pub const WHITE_KNIGHT: usize = 3;
pub const BLACK_BISHOP: usize = 4;
pub const WHITE_BISHOP: usize = 5;
pub const BLACK_ROOK: usize = 6;
pub const WHITE_ROOK: usize = 7;
pub const BLACK_QUEEN: usize = 8;
pub const WHITE_QUEEN: usize = 9;
pub const BLACK_KING: usize = 10;
pub const WHITE_KING: usize = 11;
pub const POLY_NON_PIECE: usize = 12;

/// The combined piece-and-colour number: the white piece of each kind sits
/// one above the black piece of the same kind.
pub open spec fn spec_piece_poly(piece: usize, colour: usize) -> int {
    2 * piece + 1 - colour
}

/// Combine a piece kind and a colour into the interleaved numbering.
pub fn to_piece_poly(piece: usize, colour: usize) -> (r: usize)
    requires
        piece <= KING,
        colour == color::WHITE || colour == color::BLACK,
    ensures
        r == spec_piece_poly(piece, colour),
        r < POLY_NON_PIECE,
{
    if colour == color::WHITE {
        2 * piece + 1
    } else {
        2 * piece
    }
}

/// True exactly for the upper-case piece letters.
pub fn char_is_piece(c: char) -> (r: bool)
    ensures
        r == (c == 'P' || c == 'N' || c == 'B' || c == 'R' || c == 'Q' || c == 'K'),
{
    c == 'P' || c == 'N' || c == 'B' || c == 'R' || c == 'Q' || c == 'K'
}

} // verus!
