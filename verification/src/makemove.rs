//! Applying a move and taking it back, with the two proofs the rest of
//! the crate rests on: a move kept by generation leaves the position
//! well-formed, and taking it back restores the position exactly.

use vstd::prelude::*;
use crate::attack;
use crate::board::{
    BoardView, Sboard, castle_ok, ep_ok, eps_cap_sq, move_ok, placement_ok, spec_make, two_mid_sq,
    spec_undo, undo_ok, wf,
};
use crate::color;
use crate::moves;
use crate::piece;
use crate::square;
use crate::zobrist;

verus! {

/// The squares whose content `spec_make` may change.
pub open spec fn make_touched(v: BoardView, m: moves::Smove, i: int) -> bool {
    ||| i == m.from as int
    ||| i == m.dest as int
    ||| (m.tipe == moves::MOVE_TYPE_EPS && i == eps_cap_sq(v.side, m.dest))
    ||| (m.tipe != moves::MOVE_TYPE_EPS && v.en_passant >= 0 && i == v.en_passant as int)
    ||| (m.tipe == moves::MOVE_TYPE_PAWN_TWO && i == two_mid_sq(v.side, m.from))
    ||| (m.tipe == moves::MOVE_TYPE_CASTLE && (m.dest == 62 && (i == 63 || i == 61) || m.dest
        == 58 && (i == 56 || i == 59) || m.dest == 6 && (i == 7 || i == 5) || m.dest == 2 && (i
        == 0 || i == 3)))
}

/// Bounds of the extra squares a move can touch: the captured pawn of
/// an en-passant capture, a stale marker, the skipped square of a
/// double push.  All of them lie on the four middle ranks.
pub proof fn lemma_move_ranges(v: BoardView, m: moves::Smove)
    requires
        wf(v),
        move_ok(v, m),
    ensures
        m.tipe == moves::MOVE_TYPE_EPS ==> {
            &&& 24 <= eps_cap_sq(v.side, m.dest) < 40
            &&& m.dest as int == v.en_passant as int
            &&& (v.side == color::WHITE ==> 16 <= m.dest < 24)
            &&& (v.side == color::BLACK ==> 40 <= m.dest < 48)
        },
        m.tipe == moves::MOVE_TYPE_PAWN_TWO ==> (16 <= two_mid_sq(v.side, m.from) < 24 || 40
            <= two_mid_sq(v.side, m.from) < 48),
        v.en_passant >= 0 ==> 16 <= v.en_passant < 48,
{
    if m.tipe == moves::MOVE_TYPE_EPS {
        assert(v.piece[m.dest as int] == square::EPS_SQUARE);
        assert(m.dest as int == v.en_passant as int);
    }
}

/// Squares away from everything a move touches keep their content.
#[verifier::rlimit(100)]
proof fn lemma_make_untouched(v: BoardView, m: moves::Smove)
    requires
        wf(v),
        move_ok(v, m),
    ensures
        forall|i: int| 0 <= i < 64 && !make_touched(v, m, i) ==> spec_make(v, m).piece[i]
            == v.piece[i] && spec_make(v, m).color[i] == v.color[i],
{
    lemma_move_ranges(v, m);
    assert forall|i: int| 0 <= i < 64 && !make_touched(v, m, i) implies spec_make(v, m).piece[i]
        == v.piece[i] && spec_make(v, m).color[i] == v.color[i] by {
        assert(i != m.from as int && i != m.dest as int);
    }
}

/// ANDing the two square masks into the rights can only clear bits, and
/// a bit that survives was present in the rights and in both masks.
proof fn lemma_mask_keeps(x: usize, a: usize, b: usize)
    ensures
        x <= 15 ==> x & a & b <= 15,
        (x & a & b) & 1 != 0 ==> (x & 1 != 0 && a & 1 != 0 && b & 1 != 0),
        (x & a & b) & 2 != 0 ==> (x & 2 != 0 && a & 2 != 0 && b & 2 != 0),
        (x & a & b) & 4 != 0 ==> (x & 4 != 0 && a & 4 != 0 && b & 4 != 0),
        (x & a & b) & 8 != 0 ==> (x & 8 != 0 && a & 8 != 0 && b & 8 != 0),
{
    assert(x <= 15 ==> x & a & b <= 15) by (bit_vector);
    assert((x & a & b) & 1 != 0 ==> (x & 1 != 0 && a & 1 != 0 && b & 1 != 0)) by (bit_vector);
    assert((x & a & b) & 2 != 0 ==> (x & 2 != 0 && a & 2 != 0 && b & 2 != 0)) by (bit_vector);
    assert((x & a & b) & 4 != 0 ==> (x & 4 != 0 && a & 4 != 0 && b & 4 != 0)) by (bit_vector);
    assert((x & a & b) & 8 != 0 ==> (x & 8 != 0 && a & 8 != 0 && b & 8 != 0)) by (bit_vector);
}

/// The castle-mask bits that matter below, evaluated on the table.
proof fn lemma_mask_values()
    ensures
        moves::CASTLE_MASK@[60] & 1 == 0,
        moves::CASTLE_MASK@[63] & 1 == 0,
        moves::CASTLE_MASK@[60] & 2 == 0,
        moves::CASTLE_MASK@[56] & 2 == 0,
        moves::CASTLE_MASK@[4] & 4 == 0,
        moves::CASTLE_MASK@[7] & 4 == 0,
        moves::CASTLE_MASK@[4] & 8 == 0,
        moves::CASTLE_MASK@[0] & 8 == 0,
{
    assert(moves::CASTLE_MASK@[60] == 12);
    assert(moves::CASTLE_MASK@[63] == 14);
    assert(moves::CASTLE_MASK@[56] == 13);
    assert(moves::CASTLE_MASK@[4] == 3);
    assert(moves::CASTLE_MASK@[7] == 11);
    assert(moves::CASTLE_MASK@[0] == 7);
    assert(12usize & 1 == 0 && 14usize & 1 == 0 && 12usize & 2 == 0 && 13usize & 2 == 0
        && 3usize & 4 == 0 && 11usize & 4 == 0 && 3usize & 8 == 0 && 7usize & 8 == 0)
        by (bit_vector);
}

/// Applying a move that generation could emit keeps the position
/// well-formed and leaves a history frame that undo can act on.
pub proof fn lemma_make_wf(v: BoardView, m: moves::Smove)
    requires
        wf(v),
        move_ok(v, m),
        v.ply < usize::MAX,
        v.ply_pawn < usize::MAX,
    ensures
        wf(spec_make(v, m)),
        undo_ok(spec_make(v, m)),
{
    let w = spec_make(v, m);
    let f = m.from as int;
    let d = m.dest as int;
    let s = v.side;
    lemma_make_untouched(v, m);
    lemma_mask_keeps(v.castle_rights, moves::CASTLE_MASK@[f], moves::CASTLE_MASK@[d]);
    lemma_mask_values();

    // placement
    assert forall|i: int| 0 <= i < 64 implies #[trigger] w.piece[i] <= square::EMPTY && ((
    w.piece[i] <= piece::KING) <==> (w.color[i] == color::WHITE || w.color[i] == color::BLACK))
        && (w.piece[i] > piece::KING ==> w.color[i] == square::EMPTY) by {
        if !make_touched(v, m, i) {
        }
    }

    // pawns stay off the back ranks
    assert forall|i: int| 0 <= i < 64 && #[trigger] w.piece[i] == piece::PAWN implies 8 <= i
        < 56 by {
        if !make_touched(v, m, i) {
        }
    }

    // the en-passant state
    assert(ep_ok(w));

    // the castling rights still held have king and rook at home
    if w.castle_rights & 1 != 0 {
        assert(f != 60 && f != 63 && d != 60 && d != 63);
        assert(!make_touched(v, m, 60) && !make_touched(v, m, 63));
    }
    if w.castle_rights & 2 != 0 {
        assert(f != 60 && f != 56 && d != 60 && d != 56);
        assert(!make_touched(v, m, 60) && !make_touched(v, m, 56));
    }
    if w.castle_rights & 4 != 0 {
        assert(f != 4 && f != 7 && d != 4 && d != 7);
        assert(!make_touched(v, m, 4) && !make_touched(v, m, 7));
    }
    if w.castle_rights & 8 != 0 {
        assert(f != 4 && f != 0 && d != 4 && d != 0);
        assert(!make_touched(v, m, 4) && !make_touched(v, m, 0));
    }
    assert(castle_ok(w));
}

impl Sboard {
    /// Apply `m`.  The move is recorded in the history, the board and
    /// all scalar state updated exactly as `spec_make` says, and the
    /// hash recomputed from a full scan of the new state.  The result is
    /// `Some` when the move did not leave the mover's own king in check;
    /// a rejected move is not rolled back here — the caller undoes it.
    pub fn make_move(&mut self, m: &moves::Smove) -> (r: Option<moves::Smove>)
        requires
            wf(old(self)@),
            move_ok(old(self)@, *m),
            old(self).ply < usize::MAX,
            old(self).ply_pawn < usize::MAX,
        ensures
            final(self)@ == spec_make(old(self)@, *m),
            wf(final(self)@),
            undo_ok(final(self)@),
            (r is Some) == !attack::spec_in_check(
                spec_make(old(self)@, *m).piece,
                spec_make(old(self)@, *m).color,
                old(self)@.side,
            ),
            r matches Some(mv) ==> mv == *m,
    {
        let ghost v = self@;

        let mut new_hist = moves::Shist::new();
        new_hist.m = *m;
        new_hist.cap = self.piece[m.dest];
        new_hist.castle = self.castle_rights;
        new_hist.ep_before = self.en_passant;
        new_hist.ply_pawn_before = self.ply_pawn;
        self.hist.push(new_hist);

        let moved = self.piece[m.from];
        if moved == piece::PAWN {
            self.ply_pawn = 0;
        } else {
            self.ply_pawn = self.ply_pawn + 1;
        }

        self.piece[m.dest] = moved;
        self.color[m.dest] = self.color[m.from];
        self.piece[m.from] = square::EMPTY;
        self.color[m.from] = square::EMPTY;

        if m.tipe == moves::MOVE_TYPE_EPS {
            if self.side == color::WHITE {
                self.piece[m.dest + 8] = square::EMPTY;
                self.color[m.dest + 8] = square::EMPTY;
            } else {
                self.piece[m.dest - 8] = square::EMPTY;
                self.color[m.dest - 8] = square::EMPTY;
            }
            self.en_passant = -1;
        } else {
            if self.en_passant >= 0 {
                let ep = self.en_passant as usize;
                if self.piece[ep] == square::EPS_SQUARE {
                    self.piece[ep] = square::EMPTY;
                }
                self.en_passant = -1;
            }
        }

        if m.tipe == moves::MOVE_TYPE_PAWN_TWO {
            if self.side == color::BLACK {
                self.piece[m.from + 8] = square::EPS_SQUARE;
                self.color[m.from + 8] = square::EMPTY;
                self.en_passant = (m.from + 8) as i16;
            } else {
                self.piece[m.from - 8] = square::EPS_SQUARE;
                self.color[m.from - 8] = square::EMPTY;
                self.en_passant = (m.from - 8) as i16;
            }
        }

        if m.tipe >= moves::MOVE_TYPE_PROMOTION_TO_QUEEN {
            if m.tipe == moves::MOVE_TYPE_PROMOTION_TO_QUEEN {
                self.piece[m.dest] = piece::QUEEN;
            } else if m.tipe == moves::MOVE_TYPE_PROMOTION_TO_ROOK {
                self.piece[m.dest] = piece::ROOK;
            } else if m.tipe == moves::MOVE_TYPE_PROMOTION_TO_BISHOP {
                self.piece[m.dest] = piece::BISHOP;
            } else {
                self.piece[m.dest] = piece::KNIGHT;
            }
        }

        if m.tipe == moves::MOVE_TYPE_CASTLE {
            if m.dest == square::G1 {
                self.piece[m.from + 3] = square::EMPTY;
                self.color[m.from + 3] = square::EMPTY;
                self.piece[m.from + 1] = piece::ROOK;
                self.color[m.from + 1] = color::WHITE;
            } else if m.dest == square::C1 {
                self.piece[m.from - 4] = square::EMPTY;
                self.color[m.from - 4] = square::EMPTY;
                self.piece[m.from - 1] = piece::ROOK;
                self.color[m.from - 1] = color::WHITE;
            } else if m.dest == square::G8 {
                self.piece[m.from + 3] = square::EMPTY;
                self.color[m.from + 3] = square::EMPTY;
                self.piece[m.from + 1] = piece::ROOK;
                self.color[m.from + 1] = color::BLACK;
            } else if m.dest == square::C8 {
                self.piece[m.from - 4] = square::EMPTY;
                self.color[m.from - 4] = square::EMPTY;
                self.piece[m.from - 1] = piece::ROOK;
                self.color[m.from - 1] = color::BLACK;
            }
        }

        self.ply = self.ply + 1;
        self.castle_rights = self.castle_rights & moves::CASTLE_MASK[m.from]
            & moves::CASTLE_MASK[m.dest];

        let in_check = self.is_in_check(self.side);
        let valid_move: Option<moves::Smove> = if !in_check {
            Some(*m)
        } else {
            None
        };

        self.side = (color::WHITE + color::BLACK) - self.side;

        proof {
            lemma_make_wf(v, *m);
            assert(self.piece@ =~= spec_make(v, *m).piece);
            assert(self.color@ =~= spec_make(v, *m).color);
        }
        self.hash_key = zobrist::hash_key(
            &self.piece,
            &self.color,
            self.castle_rights,
            self.en_passant,
            self.side,
        );
        proof {
            assert(self@ =~= spec_make(v, *m));
        }

        valid_move
    }
}

impl Sboard {
    /// Take back the move of the top history frame, exactly inverting
    /// `make_move`.  Only ever meaningful immediately after the
    /// corresponding `make_move`, whose postcondition establishes
    /// `undo_ok`.
    pub fn undo_move(&mut self, _m: &moves::Smove)
        requires
            undo_ok(old(self)@),
        ensures
            final(self)@ == spec_undo(old(self)@),
    {
        let ghost v = self@;

        let side = (color::WHITE + color::BLACK) - self.side;
        self.side = side;
        self.ply = self.ply - 1;

        let idx = self.hist.len() - 1;
        let fr = self.hist[idx];

        let restored = if fr.m.tipe >= moves::MOVE_TYPE_PROMOTION_TO_QUEEN {
            piece::PAWN
        } else {
            self.piece[fr.m.dest]
        };
        self.piece[fr.m.from] = restored;
        self.color[fr.m.from] = side;
        self.piece[fr.m.dest] = fr.cap;
        if fr.cap <= piece::KING {
            self.color[fr.m.dest] = (color::WHITE + color::BLACK) - side;
        } else {
            self.color[fr.m.dest] = square::EMPTY;
        }

        if fr.m.tipe == moves::MOVE_TYPE_EPS {
            if side == color::WHITE {
                self.piece[fr.m.dest + 8] = piece::PAWN;
                self.color[fr.m.dest + 8] = color::BLACK;
            } else {
                self.piece[fr.m.dest - 8] = piece::PAWN;
                self.color[fr.m.dest - 8] = color::WHITE;
            }
        }

        if fr.m.tipe == moves::MOVE_TYPE_PAWN_TWO {
            if side == color::WHITE {
                self.piece[fr.m.from - 8] = square::EMPTY;
                self.color[fr.m.from - 8] = square::EMPTY;
            } else {
                self.piece[fr.m.from + 8] = square::EMPTY;
                self.color[fr.m.from + 8] = square::EMPTY;
            }
        }

        if fr.ep_before >= 0 && fr.ep_before != fr.m.dest as i16 {
            self.piece[fr.ep_before as usize] = square::EPS_SQUARE;
        }

        if fr.m.tipe == moves::MOVE_TYPE_CASTLE {
            if fr.m.dest == square::G1 && side == color::WHITE {
                self.piece[square::H1] = piece::ROOK;
                self.color[square::H1] = color::WHITE;
                self.piece[square::F1] = square::EMPTY;
                self.color[square::F1] = square::EMPTY;
            } else if fr.m.dest == square::C1 && side == color::WHITE {
                self.piece[square::A1] = piece::ROOK;
                self.color[square::A1] = color::WHITE;
                self.piece[square::D1] = square::EMPTY;
                self.color[square::D1] = square::EMPTY;
            } else if fr.m.dest == square::G8 && side == color::BLACK {
                self.piece[square::H8] = piece::ROOK;
                self.color[square::H8] = color::BLACK;
                self.piece[square::F8] = square::EMPTY;
                self.color[square::F8] = square::EMPTY;
            } else if fr.m.dest == square::C8 && side == color::BLACK {
                self.piece[square::A8] = piece::ROOK;
                self.color[square::A8] = color::BLACK;
                self.piece[square::D8] = square::EMPTY;
                self.color[square::D8] = square::EMPTY;
            }
        }

        self.castle_rights = fr.castle;
        self.en_passant = fr.ep_before;
        self.ply_pawn = fr.ply_pawn_before;
        self.hist.pop();

        proof {
            assert(self.piece@ =~= spec_undo(v).piece);
            assert(self.color@ =~= spec_undo(v).color);
        }
        self.hash_key = zobrist::hash_key(
            &self.piece,
            &self.color,
            self.castle_rights,
            self.en_passant,
            self.side,
        );
        proof {
            assert(self@ =~= spec_undo(v));
        }
    }
}

/// Undo exactness: applying any move that generation could emit and
/// taking it back restores every field of the position — placement,
/// rights, en-passant state, side, clocks, history, and hash.
#[verifier::rlimit(100)]
pub proof fn lemma_undo_make(v: BoardView, m: moves::Smove)
    requires
        wf(v),
        move_ok(v, m),
        v.ply < usize::MAX,
        v.ply_pawn < usize::MAX,
    ensures
        spec_undo(spec_make(v, m)) == v,
{
    let w = spec_make(v, m);
    let u = spec_undo(w);
    lemma_move_ranges(v, m);
    lemma_make_wf(v, m);
    assert(u.hist =~= v.hist);
    assert(u.piece =~= v.piece);
    assert(u.color =~= v.color);
    assert(u =~= v);
}

} // verus!
