//! The position-hash keying scheme.
//!
//! Every hashed feature (piece on a square, castling right, en-passant
//! file, side to move) owns one slot in a fixed table of pseudo-random
//! 64-bit keys; the position hash is the XOR of the keys of the features
//! present.  The keys are produced by a fixed integer mixing function of
//! the slot number, so the table never has to be stored.  Piece slots are
//! numbered with rank 1 as row 0, the reverse of the board's indexing.

use vstd::prelude::*;
use vstd::wrapping::u64_specs;
use crate::color;
use crate::piece;
use crate::square;

verus! {

/// The 64-bit mixing function behind every key of the table.
pub open spec fn spec_mix64(x: u64) -> u64 {
    let z0 = u64_specs::wrapping_add(x, 0x9E3779B97F4A7C15);
    let z1 = u64_specs::wrapping_mul(z0 ^ (z0 >> 30), 0xBF58476D1CE4E5B9);
    let z2 = u64_specs::wrapping_mul(z1 ^ (z1 >> 27), 0x94D049BB133111EB);
    z2 ^ (z2 >> 31)
}

fn mix64(x: u64) -> (r: u64)
    ensures
        r == spec_mix64(x),
{
    let z0 = x.wrapping_add(0x9E3779B97F4A7C15);
    let z1 = (z0 ^ (z0 >> 30)).wrapping_mul(0xBF58476D1CE4E5B9);
    let z2 = (z1 ^ (z1 >> 27)).wrapping_mul(0x94D049BB133111EB);
    z2 ^ (z2 >> 31)
}

/// Key of a piece with interleaved number `poly` standing on `sq`:
/// slots 0..768, eight files by eight rows per piece number, rows
/// counted from rank 1.
pub open spec fn spec_piece_key(poly: int, sq: int) -> u64 {
    spec_mix64((64 * poly + 8 * (7 - sq / 8) + sq % 8) as u64)
}

/// Key of castling right number `j` (0 = K, 1 = Q, 2 = k, 3 = q):
/// slots 768..772.
pub open spec fn spec_castle_key(j: int) -> u64 {
    spec_mix64((768 + j) as u64)
}

/// Key of an en-passant target on file `f`: slots 772..780.
pub open spec fn spec_ep_key(f: int) -> u64 {
    spec_mix64((772 + f) as u64)
}

/// Key of "white to move": slot 780.
pub open spec fn spec_turn_key() -> u64 {
    spec_mix64(780)
}

/// XOR of the castling keys of the rights present in `castle`.
pub open spec fn spec_castle_hash(castle: usize) -> u64 {
    (if castle & 1 != 0 { spec_castle_key(0) } else { 0 })
    ^ (if castle & 2 != 0 { spec_castle_key(1) } else { 0 })
    ^ (if castle & 4 != 0 { spec_castle_key(2) } else { 0 })
    ^ (if castle & 8 != 0 { spec_castle_key(3) } else { 0 })
}

/// XOR of the piece keys of the occupied squares below `n`.
pub open spec fn spec_squares_hash(pieces: Seq<usize>, colors: Seq<usize>, n: int) -> u64
    decreases n,
{
    if n <= 0 {
        0u64
    } else {
        spec_squares_hash(pieces, colors, n - 1) ^ (if pieces[n - 1] <= piece::KING {
            spec_piece_key(piece::spec_piece_poly(pieces[n - 1], colors[n - 1]), n - 1)
        } else {
            0u64
        })
    }
}

/// The position hash: XOR of the keys of every occupied square, every
/// castling right held, the en-passant file if a target is set, and the
/// side to move if it is white.
pub open spec fn spec_hash(
    pieces: Seq<usize>,
    colors: Seq<usize>,
    castle: usize,
    ep: i16,
    side: usize,
) -> u64 {
    spec_squares_hash(pieces, colors, 64) ^ spec_castle_hash(castle) ^ (if ep >= 0 {
        spec_ep_key(ep as int % 8)
    } else {
        0u64
    }) ^ (if side == color::WHITE {
        spec_turn_key()
    } else {
        0u64
    })
}

/// Compute the position hash by a full scan of the board.
pub fn hash_key(
    pieces: &[usize; 64],
    colors: &[usize; 64],
    castle: usize,
    ep: i16,
    side: usize,
) -> (r: u64)
    requires
        forall|i: int| 0 <= i < 64 && #[trigger] pieces@[i] <= piece::KING
            ==> colors@[i] == color::WHITE || colors@[i] == color::BLACK,
        ep < 64,
    ensures
        r == spec_hash(pieces@, colors@, castle, ep, side),
{
    let mut h: u64 = 0;
    for i in 0..64usize
        invariant
            h == spec_squares_hash(pieces@, colors@, i as int),
            forall|k: int| 0 <= k < 64 && #[trigger] pieces@[k] <= piece::KING
                ==> colors@[k] == color::WHITE || colors@[k] == color::BLACK,
    {
        let term: u64 = if pieces[i] <= piece::KING {
            let poly = piece::to_piece_poly(pieces[i], colors[i]);
            let slot = 64 * poly + 8 * (7 - i / 8) + i % 8;
            mix64(slot as u64)
        } else {
            0
        };
        h = h ^ term;
    }
    let c0: u64 = if castle & 1 != 0 { mix64(768) } else { 0 };
    let c1: u64 = if castle & 2 != 0 { mix64(769) } else { 0 };
    let c2: u64 = if castle & 4 != 0 { mix64(770) } else { 0 };
    let c3: u64 = if castle & 8 != 0 { mix64(771) } else { 0 };
    let ep_h: u64 = if ep >= 0 { mix64(772 + (ep % 8) as u64) } else { 0 };
    let turn_h: u64 = if side == color::WHITE { mix64(780) } else { 0 };
    h ^ (c0 ^ c1 ^ c2 ^ c3) ^ ep_h ^ turn_h
}

} // verus!
