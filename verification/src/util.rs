//! Small board-geometry helpers shared by every other module.

use vstd::prelude::*;

verus! {

pub const START_FEN: &'static str = "rnbqkbnr/pppppppp/8/8/8/8/PPPPPPPP/RNBQKBNR w KQkq - 0 1";

pub const RANK_MAX: usize = 7;
pub const RANK_MIN: usize = 0;
pub const FILE_MAX: usize = 7;
pub const FILE_MIN: usize = 0;

/// File (column) of a square index, 0 = the a-file.
pub fn get_col(pos: usize) -> (r: usize)
    ensures
        r == pos % 8,
{
    pos % 8
}

/// Rank counted from the top of the board, 0 = the rank holding index 0.
pub fn get_row(pos: usize) -> (r: usize)
    ensures
        r == pos / 8,
{
    pos / 8
}
} // verus!
