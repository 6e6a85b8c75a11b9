//! Square indexing: index 0 is a8 (top left), index 63 is h1, so the rank
//! from the top is `sq / 8` and the file is `sq % 8`.

use vstd::prelude::*;
use crate::color;
use crate::text;

verus! {

/// Square content marker: the square a pawn skipped on a double push.
pub const EPS_SQUARE: usize = 6;
/// Square content marker: nothing on the square.
pub const EMPTY: usize = 7;

pub const A1: usize = 56;
pub const B1: usize = 57;
pub const C1: usize = 58;
pub const D1: usize = 59;
pub const E1: usize = 60;
pub const F1: usize = 61;
pub const G1: usize = 62;
pub const H1: usize = 63;

pub const A8: usize = 0;
pub const B8: usize = 1;
pub const C8: usize = 2;
pub const D8: usize = 3;
pub const E8: usize = 4;
pub const F8: usize = 5;
pub const G8: usize = 6;
pub const H8: usize = 7;

pub const BRD_SQ_NUM: usize = 64;
pub const SQUARE_NONE: usize = 99;

pub const RANK1: usize = 0;
pub const RANK2: usize = 1;
pub const RANK3: usize = 2;
pub const RANK4: usize = 3;
pub const RANK5: usize = 4;
pub const RANK6: usize = 5;
pub const RANK7: usize = 6;
pub const RANK8: usize = 7;

/// ASCII byte of the file letter of a square, `b'a'` for the a-file.
pub open spec fn spec_file_byte(sq: int) -> u8 {
    (97 + sq % 8) as u8
}

/// ASCII byte of the rank digit of a square, `b'8'` for the top rank.
pub open spec fn spec_rank_byte(sq: int) -> u8 {
    (56 - sq / 8) as u8
}

/// The two-character algebraic name of a square, as characters.
pub open spec fn spec_square_name(sq: int) -> Seq<char> {
    seq![spec_file_byte(sq) as char, spec_rank_byte(sq) as char]
}

/// The square index named by a two-character string, or `SQUARE_NONE`.
pub open spec fn spec_square_from_name(s: Seq<char>) -> usize {
    if s.len() == 2 && 'a' <= s[0] && s[0] <= 'h' && '1' <= s[1] && s[1] <= '8' {
        (8 * (56 - s[1] as int) + (s[0] as int - 97)) as usize
    } else {
        SQUARE_NONE
    }
}

/// Append the algebraic name of `square` to `string_`.
pub fn square_to_string(square: usize, string_: &mut String, size: usize) -> (r: bool)
    requires
        square < 64,
        size >= 3,
    ensures
        final(string_)@ == old(string_)@ + spec_square_name(square as int),
        r == true,
{
    let mut name: Vec<u8> = Vec::new();
    name.push(97 + (square % 8) as u8);
    name.push(56 - (square / 8) as u8);
    assert(name@ =~= seq![spec_file_byte(square as int), spec_rank_byte(square as int)]);
    let tail = text::ascii_to_string(name);
    assert(tail@ =~= spec_square_name(square as int));
    string_.append(tail.as_str());
    true
}

/// Parse the first two characters of `string_` as an algebraic square name.
/// Returns `SQUARE_NONE` unless the whole string is a valid two-character name.
pub fn square_from_string(string_: &mut String) -> (r: usize)
    requires
        old(string_)@.len() >= 2,
    ensures
        *final(string_) == *old(string_),
        r == spec_square_from_name(old(string_)@),
{
    let fl = string_.as_str().get_char(0);
    let rk = string_.as_str().get_char(1);
    let f = fl as u32;
    let k = rk as u32;
    if f < 97 || f > 104 {
        return SQUARE_NONE;
    }
    if k < 49 || k > 56 {
        return SQUARE_NONE;
    }
    if string_.as_str().unicode_len() != 2 {
        return SQUARE_NONE;
    }
    (8 * (56 - k as usize)) + (f as usize - 97)
}

/// True exactly for the rank digits '1' through '8'.
pub fn char_is_rank(c: char) -> (r: bool)
    ensures
        r == ('1' <= c && c <= '8'),
{
    let v = c as u32;
    49 <= v && v <= 56
}

/// True exactly for the file letters 'a' through 'h'.
pub fn char_is_file(c: char) -> (r: bool)
    ensures
        r == ('a' <= c && c <= 'h'),
{
    let v = c as u32;
    97 <= v && v <= 104
}

/// Rank of `square` counted from `colour`'s own side of the board.
pub fn square_side_rank(square: usize, colour: usize) -> (r: usize)
    requires
        square < 64,
        colour == color::WHITE || colour == color::BLACK,
    ensures
        colour == color::BLACK ==> r == 7 - square / 8,
        colour == color::WHITE ==> r == square / 8,
{
    let mut rank = square / 8;
    if color::colour_is_black(colour) {
        rank = 7 - rank;
    }
    rank
}

} // verus!
