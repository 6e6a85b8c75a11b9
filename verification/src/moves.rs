//! Move representation, the packed 16-bit book encoding of a move, the
//! castling-rights mask table, and the per-move history frame.

use vstd::prelude::*;
use crate::square;
use crate::text;

verus! {

pub const MOVE_TYPE_NONE: usize = 0;
pub const MOVE_TYPE_NORMAL: usize = 1;
pub const MOVE_TYPE_CASTLE: usize = 2;
pub const MOVE_TYPE_PAWN_TWO: usize = 3;
pub const MOVE_TYPE_EPS: usize = 4;

pub const MOVE_TYPE_PROMOTION_TO_QUEEN: usize = 5;
pub const MOVE_TYPE_PROMOTION_TO_ROOK: usize = 6;
pub const MOVE_TYPE_PROMOTION_TO_BISHOP: usize = 7;
pub const MOVE_TYPE_PROMOTION_TO_KNIGHT: usize = 8;

pub const PROMOTION_POLY_NONE: usize = 0;
pub const PROMOTION_POLY_KNIGHT: usize = 1;
pub const PROMOTION_POLY_BISHOP: usize = 2;
pub const PROMOTION_POLY_ROOK: usize = 3;
pub const PROMOTION_POLY_QUEEN: usize = 4;

/* Castling rights are a bitfield:
 *   1 -> white can castle short        2 -> white can castle long
 *   4 -> black can castle short        8 -> black can castle long
 * The mask of a square is ANDed into the rights whenever a move leaves
 * or enters that square, which revokes the right as soon as a king or
 * rook quits its home square or a rook is captured on it. */
pub const CASTLE_MASK: [usize; 64] = [
     7, 15, 15, 15,  3, 15, 15, 11,
    15, 15, 15, 15, 15, 15, 15, 15,
    15, 15, 15, 15, 15, 15, 15, 15,
    15, 15, 15, 15, 15, 15, 15, 15,
    15, 15, 15, 15, 15, 15, 15, 15,
    15, 15, 15, 15, 15, 15, 15, 15,
    15, 15, 15, 15, 15, 15, 15, 15,
    13, 15, 15, 15, 12, 15, 15, 14,
];

/// The four castling moves.
pub enum Enroques {
    Wkca,
    Wqca,
    Bkca,
    Bqca,
}

impl Enroques {
    /// The rights bit of this castling move.
    pub fn bit(&self) -> (r: usize)
        ensures
            *self is Wkca ==> r == 1,
            *self is Wqca ==> r == 2,
            *self is Bkca ==> r == 4,
            *self is Bqca ==> r == 8,
    {
        match *self {
            Enroques::Wkca => 1,
            Enroques::Wqca => 2,
            Enroques::Bkca => 4,
            Enroques::Bqca => 8,
        }
    }
}

/// The promotion number carried by the packed encoding of a move type.
pub open spec fn spec_promo_poly(tipe: usize) -> usize {
    if tipe == MOVE_TYPE_PROMOTION_TO_QUEEN {
        PROMOTION_POLY_QUEEN
    } else if tipe == MOVE_TYPE_PROMOTION_TO_ROOK {
        PROMOTION_POLY_ROOK
    } else if tipe == MOVE_TYPE_PROMOTION_TO_BISHOP {
        PROMOTION_POLY_BISHOP
    } else if tipe == MOVE_TYPE_PROMOTION_TO_KNIGHT {
        PROMOTION_POLY_KNIGHT
    } else {
        PROMOTION_POLY_NONE
    }
}

/// A castling move is encoded as if the king moved onto its rook's home
/// square; every other move keeps its real destination.
pub open spec fn spec_encode_dest(dest: usize, tipe: usize) -> usize {
    if tipe == MOVE_TYPE_CASTLE {
        if dest == square::C8 {
            square::A8
        } else if dest == square::G8 {
            square::H8
        } else if dest == square::G1 {
            square::H1
        } else if dest == square::C1 {
            square::A1
        } else {
            0
        }
    } else {
        dest
    }
}

/// The packed 16-bit form of a move: 3 bits destination file, 3 bits
/// destination rank, 3 bits origin file, 3 bits origin rank, 3 bits
/// promotion piece, with rank 1 numbered 0 (the reverse of the board's
/// own indexing).
#[verifier::opaque]
pub open spec fn spec_encode_move(from: usize, dest: usize, tipe: usize) -> u16 {
    let d = spec_encode_dest(dest, tipe);
    let to_file = d % 8;
    let to_row = 7 - d / 8;
    let from_file = from % 8;
    let from_row = 7 - from / 8;
    (spec_promo_poly(tipe) * 4096 + from_row * 512 + from_file * 64 + to_row * 8
        + to_file) as u16
}

/// A move: origin and destination squares, its kind, the promotion piece
/// of the packed encoding, the packed encoding itself, and the position
/// hash at the time the move was generated.
#[derive(Clone, Copy, PartialEq, Eq, Structural)]
pub struct Smove {
    pub from: usize,
    pub dest: usize,
    pub tipe: usize,
    pub promotion_poly: usize,
    pub encoded_move: u16,
    pub hash: u64,
}

impl Smove {
    pub fn new() -> (r: Self)
        ensures
            r == (Smove {
                from: 0usize,
                dest: 0usize,
                tipe: MOVE_TYPE_NONE,
                promotion_poly: PROMOTION_POLY_NONE,
                encoded_move: 0u16,
                hash: 0u64,
            }),
    {
        Smove {
            from: 0,
            dest: 0,
            tipe: MOVE_TYPE_NONE,
            promotion_poly: PROMOTION_POLY_NONE,
            encoded_move: 0,
            hash: 0,
        }
    }

    /// Fill in the packed 16-bit encoding from the other fields.
    pub fn encode_move(&mut self)
        requires
            old(self).from < 64,
            old(self).dest < 64,
        ensures
            *final(self) == (Smove {
                encoded_move: spec_encode_move(old(self).from, old(self).dest, old(self).tipe),
                ..*old(self)
            }),
    {
        let d = if self.tipe == MOVE_TYPE_CASTLE {
            if self.dest == square::C8 {
                square::A8
            } else if self.dest == square::G8 {
                square::H8
            } else if self.dest == square::G1 {
                square::H1
            } else if self.dest == square::C1 {
                square::A1
            } else {
                0
            }
        } else {
            self.dest
        };

        let promote: usize = if self.tipe == MOVE_TYPE_PROMOTION_TO_QUEEN {
            PROMOTION_POLY_QUEEN
        } else if self.tipe == MOVE_TYPE_PROMOTION_TO_ROOK {
            PROMOTION_POLY_ROOK
        } else if self.tipe == MOVE_TYPE_PROMOTION_TO_BISHOP {
            PROMOTION_POLY_BISHOP
        } else if self.tipe == MOVE_TYPE_PROMOTION_TO_KNIGHT {
            PROMOTION_POLY_KNIGHT
        } else {
            PROMOTION_POLY_NONE
        };

        let to_file = d % 8;
        let to_row = 7 - d / 8;
        let from_file = self.from % 8;
        let from_row = 7 - self.from / 8;

        proof {
            reveal(spec_encode_move);
        }
        self.encoded_move = (promote * 4096 + from_row * 512 + from_file * 64 + to_row * 8
            + to_file) as u16;
    }
}

/// One history frame: the move that was applied, what stood on its
/// destination, and the scalar state needed to take the move back.
#[derive(Clone, Copy, PartialEq, Eq, Structural)]
pub struct Shist {
    pub m: Smove,
    pub castle: usize,
    pub cap: usize,
    pub ep_before: i16,
    pub ply_pawn_before: usize,
}

impl Shist {
    pub fn new() -> (r: Self)
        ensures
            r == (Shist {
                m: Smove {
                    from: 0usize,
                    dest: 0usize,
                    tipe: MOVE_TYPE_NONE,
                    promotion_poly: PROMOTION_POLY_NONE,
                    encoded_move: 0u16,
                    hash: 0u64,
                },
                castle: 0usize,
                cap: 0usize,
                ep_before: -1i16,
                ply_pawn_before: 0usize,
            }),
    {
        Shist { m: Smove::new(), castle: 0, cap: 0, ep_before: -1, ply_pawn_before: 0 }
    }
}

/// A full snapshot of the scalar position state around one move.
#[derive(Clone, Copy, PartialEq, Eq, Structural)]
pub struct SundoMove {
    pub side: usize,
    pub castles: usize,
    pub passant: i16,
    pub hash: u64,
}

impl SundoMove {
    pub fn new() -> (r: Self)
        ensures
            r == (SundoMove { side: 0usize, castles: 0usize, passant: -1i16, hash: 0u64 }),
    {
        SundoMove { side: 0, castles: 0, passant: -1, hash: 0 }
    }
}

/// The five characters of the coordinate form of a packed move: origin
/// file and rank, destination file and rank, and the promotion letter or
/// a space.
pub open spec fn spec_uci_chars(mov: u16) -> Seq<char> {
    let f = (mov >> 6) & 0o77;
    let t = mov & 0o77;
    let p = (mov >> 12) & 0x7;
    seq![
        (((f & 0x7) + 97) as u8) as char,
        ((((f >> 3) & 0x7) + 49) as u8) as char,
        (((t & 0x7) + 97) as u8) as char,
        ((((t >> 3) & 0x7) + 49) as u8) as char,
        if p == 1 { 'n' } else if p == 2 { 'b' } else if p == 3 { 'r' } else if p == 4 { 'q' } else { ' ' },
    ]
}

/// Render a packed move in coordinate notation, for example "e2e4 " or
/// "e7e8q".
pub fn get_uci_format(mov: u16) -> (r: String)
    ensures
        r@ == spec_uci_chars(mov),
{
    let mut out: Vec<u8> = Vec::new();
    let f = (mov >> 6) & 0o77;
    let t = mov & 0o77;
    let p = (mov >> 12) & 0x7;

    assert((f & 0x7) < 8 && ((f >> 3) & 0x7) < 8 && (t & 0x7) < 8 && ((t >> 3) & 0x7) < 8)
        by (bit_vector);

    out.push(((f & 0x7) + 97) as u8);
    out.push((((f >> 3) & 0x7) + 49) as u8);
    out.push(((t & 0x7) + 97) as u8);
    out.push((((t >> 3) & 0x7) + 49) as u8);
    if p == 1 {
        out.push(110);
    } else if p == 2 {
        out.push(98);
    } else if p == 3 {
        out.push(114);
    } else if p == 4 {
        out.push(113);
    } else {
        out.push(32);
    }
    let s = text::ascii_to_string(out);
    assert(s@ =~= spec_uci_chars(mov));
    s
}

} // verus!
