//! The position: two parallel 64-entry boards (piece kind and colour per
//! square), the scalar game state, and a history stack of reversible
//! frames.  `spec_make` and `spec_undo` are the mathematical meaning of
//! applying and taking back one move; the executable `make_move` and
//! `undo_move` (in the neighbouring module) are proved to realize them.

use vstd::prelude::*;
use crate::color;
use crate::moves;
use crate::piece;
use crate::square;
use crate::zobrist;

verus! {

/// The mathematical value of a position.
#[verifier::ext_equal]
pub struct BoardView {
    pub piece: Seq<usize>,
    pub color: Seq<usize>,
    pub side: usize,
    pub hist: Seq<moves::Shist>,
    pub castle_rights: usize,
    pub ply: usize,
    pub ply_pawn: usize,
    pub en_passant: i16,
    pub hash_key: u64,
}

/// Board representation.
pub struct Sboard {
    /// Piece kind on each square, `square::EMPTY` or `square::EPS_SQUARE`
    /// where no piece stands.
    pub piece: [usize; 64],
    /// Colour of the piece on each square, `square::EMPTY` where none.
    pub color: [usize; 64],
    /// Side to move.
    pub side: usize,
    /// One frame per applied move, below a sentinel frame at the bottom.
    pub hist: Vec<moves::Shist>,
    pub castle_rights: usize,
    pub ply: usize,
    pub ply_pawn: usize,
    pub en_passant: i16,
    pub hash_key: u64,
}

impl View for Sboard {
    type V = BoardView;

    open spec fn view(&self) -> BoardView {
        BoardView {
            piece: self.piece@,
            color: self.color@,
            side: self.side,
            hist: self.hist@,
            castle_rights: self.castle_rights,
            ply: self.ply,
            ply_pawn: self.ply_pawn,
            en_passant: self.en_passant,
            hash_key: self.hash_key,
        }
    }
}

/// Every square holds a piece kind of one side, an en-passant marker, or
/// nothing, and the two boards agree about which.
pub open spec fn placement_ok(pieces: Seq<usize>, colors: Seq<usize>) -> bool {
    &&& pieces.len() == 64
    &&& colors.len() == 64
    &&& forall|i: int| 0 <= i < 64 ==> #[trigger] pieces[i] <= square::EMPTY
    &&& forall|i: int| 0 <= i < 64 ==> ((#[trigger] pieces[i] <= piece::KING) <==> (colors[i]
        == color::WHITE || colors[i] == color::BLACK))
    &&& forall|i: int| 0 <= i < 64 && #[trigger] pieces[i] > piece::KING ==> colors[i]
        == square::EMPTY
    &&& forall|i: int| 0 <= i < 64 && #[trigger] pieces[i] == piece::PAWN ==> 8 <= i < 56
}

/// The en-passant state: at most one marker, tied to `en_passant`, on the
/// rank facing the side to move, with the double-pushed pawn behind it.
pub open spec fn ep_ok(v: BoardView) -> bool {
    &&& (v.en_passant == -1 || (16 <= v.en_passant < 24) || (40 <= v.en_passant < 48))
    &&& v.en_passant >= 0 ==> v.piece[v.en_passant as int] == square::EPS_SQUARE
    &&& forall|i: int| 0 <= i < 64 && #[trigger] v.piece[i] == square::EPS_SQUARE ==> i
        == v.en_passant as int
    &&& (16 <= v.en_passant < 24) ==> (v.side == color::WHITE && v.piece[v.en_passant + 8]
        == piece::PAWN && v.color[v.en_passant + 8] == color::BLACK)
    &&& (40 <= v.en_passant < 48) ==> (v.side == color::BLACK && v.piece[v.en_passant - 8]
        == piece::PAWN && v.color[v.en_passant - 8] == color::WHITE)
}

/// A castling right is only held while the king and the rook of that
/// wing still stand on their home squares.
pub open spec fn castle_ok(v: BoardView) -> bool {
    &&& v.castle_rights <= 15
    &&& v.castle_rights & 1 != 0 ==> (v.piece[60] == piece::KING && v.color[60] == color::WHITE
        && v.piece[63] == piece::ROOK && v.color[63] == color::WHITE)
    &&& v.castle_rights & 2 != 0 ==> (v.piece[60] == piece::KING && v.color[60] == color::WHITE
        && v.piece[56] == piece::ROOK && v.color[56] == color::WHITE)
    &&& v.castle_rights & 4 != 0 ==> (v.piece[4] == piece::KING && v.color[4] == color::BLACK
        && v.piece[7] == piece::ROOK && v.color[7] == color::BLACK)
    &&& v.castle_rights & 8 != 0 ==> (v.piece[4] == piece::KING && v.color[4] == color::BLACK
        && v.piece[0] == piece::ROOK && v.color[0] == color::BLACK)
}

/// Well-formedness of a position.  The final clause is the hash
/// invariant: the stored hash always equals the hash recomputed from a
/// full scan of the state.
pub open spec fn wf(v: BoardView) -> bool {
    &&& placement_ok(v.piece, v.color)
    &&& (v.side == color::WHITE || v.side == color::BLACK)
    &&& ep_ok(v)
    &&& castle_ok(v)
    &&& v.hist.len() >= 1
    &&& v.hash_key == zobrist::spec_hash(v.piece, v.color, v.castle_rights, v.en_passant, v.side)
}

/// Square of the pawn taken by an en-passant capture landing on `dest`.
pub open spec fn eps_cap_sq(side: usize, dest: usize) -> int {
    if side == color::WHITE {
        dest + 8
    } else {
        dest - 8
    }
}

/// Square a double pawn push skips, where the marker is placed.
pub open spec fn two_mid_sq(side: usize, from: usize) -> int {
    if side == color::BLACK {
        from + 8
    } else {
        from - 8
    }
}

/// Piece a promotion move promotes to.
pub open spec fn promo_piece(tipe: usize) -> usize {
    if tipe == moves::MOVE_TYPE_PROMOTION_TO_QUEEN {
        piece::QUEEN
    } else if tipe == moves::MOVE_TYPE_PROMOTION_TO_ROOK {
        piece::ROOK
    } else if tipe == moves::MOVE_TYPE_PROMOTION_TO_BISHOP {
        piece::BISHOP
    } else {
        piece::KNIGHT
    }
}

/// What move generation guarantees of every move it emits, and what
/// `make_move` requires: enough for the move to be applied and taken
/// back exactly.
pub open spec fn move_ok(v: BoardView, m: moves::Smove) -> bool {
    let f = m.from as int;
    let d = m.dest as int;
    &&& m.from < 64
    &&& m.dest < 64
    &&& m.from != m.dest
    &&& v.piece[f] <= piece::KING
    &&& v.color[f] == v.side
    &&& v.color[d] != v.side
    &&& 1 <= m.tipe <= 8
    &&& m.tipe == moves::MOVE_TYPE_NORMAL ==> (v.piece[f] == piece::PAWN ==> 8 <= m.dest < 56)
    &&& m.tipe == moves::MOVE_TYPE_CASTLE ==> castle_move_ok(v, m)
    &&& m.tipe == moves::MOVE_TYPE_PAWN_TWO ==> {
        &&& v.piece[f] == piece::PAWN
        &&& v.side == color::WHITE ==> (48 <= m.from < 56 && d == f - 16 && v.color[f - 8]
            == square::EMPTY)
        &&& v.side == color::BLACK ==> (8 <= m.from < 16 && d == f + 16 && v.color[f + 8]
            == square::EMPTY)
    }
    &&& m.tipe == moves::MOVE_TYPE_EPS ==> {
        &&& v.piece[f] == piece::PAWN
        &&& v.piece[d] == square::EPS_SQUARE
        &&& v.side == color::WHITE ==> (f == d + 7 || f == d + 9)
        &&& v.side == color::BLACK ==> (f == d - 7 || f == d - 9)
    }
    &&& m.tipe >= moves::MOVE_TYPE_PROMOTION_TO_QUEEN ==> {
        &&& v.piece[f] == piece::PAWN
        &&& v.side == color::WHITE ==> (8 <= m.from < 16 && m.dest < 8)
        &&& v.side == color::BLACK ==> (48 <= m.from < 56 && 56 <= m.dest)
    }
}

/// The castling part of `move_ok`: king and rook at home, the rook's
/// crossing square free.
pub open spec fn castle_move_ok(v: BoardView, m: moves::Smove) -> bool {
    &&& v.piece[m.from as int] == piece::KING
    &&& if v.side == color::WHITE {
        &&& m.from == 60
        &&& (m.dest == 62 || m.dest == 58)
        &&& m.dest == 62 ==> (v.piece[63] == piece::ROOK && v.color[63] == color::WHITE
            && v.piece[61] == square::EMPTY && v.color[61] == square::EMPTY)
        &&& m.dest == 58 ==> (v.piece[56] == piece::ROOK && v.color[56] == color::WHITE
            && v.piece[59] == square::EMPTY && v.color[59] == square::EMPTY)
    } else {
        &&& m.from == 4
        &&& (m.dest == 6 || m.dest == 2)
        &&& m.dest == 6 ==> (v.piece[7] == piece::ROOK && v.color[7] == color::BLACK
            && v.piece[5] == square::EMPTY && v.color[5] == square::EMPTY)
        &&& m.dest == 2 ==> (v.piece[0] == piece::ROOK && v.color[0] == color::BLACK
            && v.piece[3] == square::EMPTY && v.color[3] == square::EMPTY)
    }
}

/// The position after applying `m` to `v`: the history frame is pushed,
/// the piece relocated, any en-passant capture or stale marker resolved,
/// a new marker placed on a double push, promotions and the castling
/// rook applied, the counters advanced, the rights masked, the side
/// flipped, and the hash recomputed from the resulting state.
pub open spec fn spec_make(v: BoardView, m: moves::Smove) -> BoardView {
    let f = m.from as int;
    let d = m.dest as int;
    let s = v.side;
    let frame = moves::Shist {
        m: m,
        castle: v.castle_rights,
        cap: v.piece[d],
        ep_before: v.en_passant,
        ply_pawn_before: v.ply_pawn,
    };
    let moved = v.piece[f];
    let pp = if moved == piece::PAWN {
        0usize
    } else {
        (v.ply_pawn + 1) as usize
    };
    let p1 = v.piece.update(d, moved).update(f, square::EMPTY);
    let c1 = v.color.update(d, s).update(f, square::EMPTY);
    let p2 = if m.tipe == moves::MOVE_TYPE_EPS {
        p1.update(eps_cap_sq(s, m.dest), square::EMPTY)
    } else if v.en_passant >= 0 && p1[v.en_passant as int] == square::EPS_SQUARE {
        p1.update(v.en_passant as int, square::EMPTY)
    } else {
        p1
    };
    let c2 = if m.tipe == moves::MOVE_TYPE_EPS {
        c1.update(eps_cap_sq(s, m.dest), square::EMPTY)
    } else {
        c1
    };
    let p3 = if m.tipe == moves::MOVE_TYPE_PAWN_TWO {
        p2.update(two_mid_sq(s, m.from), square::EPS_SQUARE)
    } else {
        p2
    };
    let c3 = if m.tipe == moves::MOVE_TYPE_PAWN_TWO {
        c2.update(two_mid_sq(s, m.from), square::EMPTY)
    } else {
        c2
    };
    let ep3: i16 = if m.tipe == moves::MOVE_TYPE_PAWN_TWO {
        two_mid_sq(s, m.from) as i16
    } else {
        -1i16
    };
    let p4 = if m.tipe >= moves::MOVE_TYPE_PROMOTION_TO_QUEEN {
        p3.update(d, promo_piece(m.tipe))
    } else {
        p3
    };
    let p5 = if m.tipe == moves::MOVE_TYPE_CASTLE {
        if m.dest == 62 {
            p4.update(63, square::EMPTY).update(61, piece::ROOK)
        } else if m.dest == 58 {
            p4.update(56, square::EMPTY).update(59, piece::ROOK)
        } else if m.dest == 6 {
            p4.update(7, square::EMPTY).update(5, piece::ROOK)
        } else if m.dest == 2 {
            p4.update(0, square::EMPTY).update(3, piece::ROOK)
        } else {
            p4
        }
    } else {
        p4
    };
    let c5 = if m.tipe == moves::MOVE_TYPE_CASTLE {
        if m.dest == 62 {
            c3.update(63, square::EMPTY).update(61, color::WHITE)
        } else if m.dest == 58 {
            c3.update(56, square::EMPTY).update(59, color::WHITE)
        } else if m.dest == 6 {
            c3.update(7, square::EMPTY).update(5, color::BLACK)
        } else if m.dest == 2 {
            c3.update(0, square::EMPTY).update(3, color::BLACK)
        } else {
            c3
        }
    } else {
        c3
    };
    let rights = v.castle_rights & moves::CASTLE_MASK@[f] & moves::CASTLE_MASK@[d];
    let side2 = (1 - s) as usize;
    BoardView {
        piece: p5,
        color: c5,
        side: side2,
        hist: v.hist.push(frame),
        castle_rights: rights,
        ply: (v.ply + 1) as usize,
        ply_pawn: pp,
        en_passant: ep3,
        hash_key: zobrist::spec_hash(p5, c5, rights, ep3, side2),
    }
}

/// What `undo_move` needs of a position: a frame to pop whose stored
/// move stays on the board, below counters that can step back.
pub open spec fn undo_ok(v: BoardView) -> bool {
    let fr = v.hist.last();
    let mover = (1 - v.side) as usize;
    &&& placement_ok(v.piece, v.color)
    &&& (v.side == color::WHITE || v.side == color::BLACK)
    &&& v.hist.len() >= 2
    &&& v.ply >= 1
    &&& fr.m.from < 64
    &&& fr.m.dest < 64
    &&& fr.cap <= square::EMPTY
    &&& -1 <= fr.ep_before < 64
    &&& fr.m.tipe == moves::MOVE_TYPE_EPS ==> (if mover == color::WHITE {
        fr.m.dest < 56
    } else {
        fr.m.dest >= 8
    })
    &&& fr.m.tipe == moves::MOVE_TYPE_PAWN_TWO ==> (if mover == color::WHITE {
        8 <= fr.m.from
    } else {
        fr.m.from < 56
    })
}

/// The position after taking back the move of the top history frame:
/// the inverse of each step of `spec_make`, with the scalar state
/// restored from the frame and the hash recomputed from the restored
/// state.
pub open spec fn spec_undo(v: BoardView) -> BoardView {
    let fr = v.hist.last();
    let f = fr.m.from as int;
    let d = fr.m.dest as int;
    let mover = (1 - v.side) as usize;
    let p1 = v.piece.update(f, if fr.m.tipe >= moves::MOVE_TYPE_PROMOTION_TO_QUEEN {
        piece::PAWN
    } else {
        v.piece[d]
    }).update(d, fr.cap);
    let c1 = v.color.update(f, mover).update(d, if fr.cap <= piece::KING {
        v.side
    } else {
        square::EMPTY
    });
    let p2 = if fr.m.tipe == moves::MOVE_TYPE_EPS {
        p1.update(eps_cap_sq(mover, fr.m.dest), piece::PAWN)
    } else {
        p1
    };
    let c2 = if fr.m.tipe == moves::MOVE_TYPE_EPS {
        c1.update(eps_cap_sq(mover, fr.m.dest), v.side)
    } else {
        c1
    };
    let p3 = if fr.m.tipe == moves::MOVE_TYPE_PAWN_TWO {
        p2.update(two_mid_sq(mover, fr.m.from), square::EMPTY)
    } else {
        p2
    };
    let c3 = if fr.m.tipe == moves::MOVE_TYPE_PAWN_TWO {
        c2.update(two_mid_sq(mover, fr.m.from), square::EMPTY)
    } else {
        c2
    };
    let p4 = if fr.ep_before >= 0 && fr.ep_before != fr.m.dest as i16 {
        p3.update(fr.ep_before as int, square::EPS_SQUARE)
    } else {
        p3
    };
    let p5 = if fr.m.tipe == moves::MOVE_TYPE_CASTLE {
        if fr.m.dest == 62 && mover == color::WHITE {
            p4.update(63, piece::ROOK).update(61, square::EMPTY)
        } else if fr.m.dest == 58 && mover == color::WHITE {
            p4.update(56, piece::ROOK).update(59, square::EMPTY)
        } else if fr.m.dest == 6 && mover == color::BLACK {
            p4.update(7, piece::ROOK).update(5, square::EMPTY)
        } else if fr.m.dest == 2 && mover == color::BLACK {
            p4.update(0, piece::ROOK).update(3, square::EMPTY)
        } else {
            p4
        }
    } else {
        p4
    };
    let c5 = if fr.m.tipe == moves::MOVE_TYPE_CASTLE {
        if fr.m.dest == 62 && mover == color::WHITE {
            c3.update(63, color::WHITE).update(61, square::EMPTY)
        } else if fr.m.dest == 58 && mover == color::WHITE {
            c3.update(56, color::WHITE).update(59, square::EMPTY)
        } else if fr.m.dest == 6 && mover == color::BLACK {
            c3.update(7, color::BLACK).update(5, square::EMPTY)
        } else if fr.m.dest == 2 && mover == color::BLACK {
            c3.update(0, color::BLACK).update(3, square::EMPTY)
        } else {
            c3
        }
    } else {
        c3
    };
    BoardView {
        piece: p5,
        color: c5,
        side: mover,
        hist: v.hist.drop_last(),
        castle_rights: fr.castle,
        ply: (v.ply - 1) as usize,
        ply_pawn: fr.ply_pawn_before,
        en_passant: fr.ep_before,
        hash_key: zobrist::spec_hash(p5, c5, fr.castle, fr.ep_before, mover),
    }
}

impl Sboard {
    /// The standard starting position.
    pub fn new() -> (r: Self)
        ensures
            wf(r@),
            r@.piece =~= spec_start_piece(),
            r@.color =~= spec_start_color(),
            r@.side == color::WHITE,
            r@.castle_rights == 15,
            r@.en_passant == -1,
            r@.ply == 1,
            r@.ply_pawn == 0,
            r@.hist.len() == 1,
    {
        let init_pos: [usize; 64] = [
            piece::ROOK, piece::KNIGHT, piece::BISHOP, piece::QUEEN,
                piece::KING, piece::BISHOP, piece::KNIGHT, piece::ROOK,
            piece::PAWN, piece::PAWN, piece::PAWN, piece::PAWN,
                piece::PAWN, piece::PAWN, piece::PAWN, piece::PAWN,
            square::EMPTY, square::EMPTY, square::EMPTY, square::EMPTY,
                square::EMPTY, square::EMPTY, square::EMPTY, square::EMPTY,
            square::EMPTY, square::EMPTY, square::EMPTY, square::EMPTY,
                square::EMPTY, square::EMPTY, square::EMPTY, square::EMPTY,
            square::EMPTY, square::EMPTY, square::EMPTY, square::EMPTY,
                square::EMPTY, square::EMPTY, square::EMPTY, square::EMPTY,
            square::EMPTY, square::EMPTY, square::EMPTY, square::EMPTY,
                square::EMPTY, square::EMPTY, square::EMPTY, square::EMPTY,
            piece::PAWN, piece::PAWN, piece::PAWN, piece::PAWN,
                piece::PAWN, piece::PAWN, piece::PAWN, piece::PAWN,
            piece::ROOK, piece::KNIGHT, piece::BISHOP, piece::QUEEN,
                piece::KING, piece::BISHOP, piece::KNIGHT, piece::ROOK,
        ];
        let init_colour: [usize; 64] = [
            color::BLACK, color::BLACK, color::BLACK, color::BLACK,
                color::BLACK, color::BLACK, color::BLACK, color::BLACK,
            color::BLACK, color::BLACK, color::BLACK, color::BLACK,
                color::BLACK, color::BLACK, color::BLACK, color::BLACK,
            square::EMPTY, square::EMPTY, square::EMPTY, square::EMPTY,
                square::EMPTY, square::EMPTY, square::EMPTY, square::EMPTY,
            square::EMPTY, square::EMPTY, square::EMPTY, square::EMPTY,
                square::EMPTY, square::EMPTY, square::EMPTY, square::EMPTY,
            square::EMPTY, square::EMPTY, square::EMPTY, square::EMPTY,
                square::EMPTY, square::EMPTY, square::EMPTY, square::EMPTY,
            square::EMPTY, square::EMPTY, square::EMPTY, square::EMPTY,
                square::EMPTY, square::EMPTY, square::EMPTY, square::EMPTY,
            color::WHITE, color::WHITE, color::WHITE, color::WHITE,
                color::WHITE, color::WHITE, color::WHITE, color::WHITE,
            color::WHITE, color::WHITE, color::WHITE, color::WHITE,
                color::WHITE, color::WHITE, color::WHITE, color::WHITE,
        ];

        let mut tmp_hist: Vec<moves::Shist> = Vec::new();
        tmp_hist.push(moves::Shist::new());

        assert(init_pos@ =~= spec_start_piece());
        assert(init_colour@ =~= spec_start_color());

        let tmp_hash = zobrist::hash_key(&init_pos, &init_colour, 15, -1, color::WHITE);

        Sboard {
            piece: init_pos,
            color: init_colour,
            side: color::WHITE,
            hist: tmp_hist,
            castle_rights: 15,
            ply: 1,
            ply_pawn: 0,
            en_passant: -1,
            hash_key: tmp_hash,
        }
    }

    /// Side to move.
    pub fn get_side(&self) -> (r: usize)
        ensures
            r == self@.side,
    {
        self.side
    }

    /// Which castlings still have king and rook on their home squares,
    /// as a rights bitfield computed from the placement alone.
    pub fn get_board_flags(&self) -> (r: usize)
        ensures
            r == spec_board_flags(self@),
    {
        let f1: usize = if self.piece[square::H1] == piece::ROOK
            && self.piece[square::E1] == piece::KING { 1 } else { 0 };
        let f2: usize = if self.piece[square::A1] == piece::ROOK
            && self.piece[square::E1] == piece::KING { 2 } else { 0 };
        let f3: usize = if self.piece[square::H8] == piece::ROOK
            && self.piece[square::E8] == piece::KING { 4 } else { 0 };
        let f4: usize = if self.piece[square::A8] == piece::ROOK
            && self.piece[square::E8] == piece::KING { 8 } else { 0 };
        f1 | f2 | f3 | f4
    }
}

/// The castlings whose king and rook squares are occupied by the right
/// piece kinds, ignoring colour.
pub open spec fn spec_board_flags(v: BoardView) -> usize {
    (if v.piece[63] == piece::ROOK && v.piece[60] == piece::KING { 1usize } else { 0usize })
    | (if v.piece[56] == piece::ROOK && v.piece[60] == piece::KING { 2usize } else { 0usize })
    | (if v.piece[7] == piece::ROOK && v.piece[4] == piece::KING { 4usize } else { 0usize })
    | (if v.piece[0] == piece::ROOK && v.piece[4] == piece::KING { 8usize } else { 0usize })
}

/// Piece layout of the starting position.
pub open spec fn spec_start_piece() -> Seq<usize> {
    seq![
        piece::ROOK, piece::KNIGHT, piece::BISHOP, piece::QUEEN,
            piece::KING, piece::BISHOP, piece::KNIGHT, piece::ROOK,
        piece::PAWN, piece::PAWN, piece::PAWN, piece::PAWN,
            piece::PAWN, piece::PAWN, piece::PAWN, piece::PAWN,
        square::EMPTY, square::EMPTY, square::EMPTY, square::EMPTY,
            square::EMPTY, square::EMPTY, square::EMPTY, square::EMPTY,
        square::EMPTY, square::EMPTY, square::EMPTY, square::EMPTY,
            square::EMPTY, square::EMPTY, square::EMPTY, square::EMPTY,
        square::EMPTY, square::EMPTY, square::EMPTY, square::EMPTY,
            square::EMPTY, square::EMPTY, square::EMPTY, square::EMPTY,
        square::EMPTY, square::EMPTY, square::EMPTY, square::EMPTY,
            square::EMPTY, square::EMPTY, square::EMPTY, square::EMPTY,
        piece::PAWN, piece::PAWN, piece::PAWN, piece::PAWN,
            piece::PAWN, piece::PAWN, piece::PAWN, piece::PAWN,
        piece::ROOK, piece::KNIGHT, piece::BISHOP, piece::QUEEN,
            piece::KING, piece::BISHOP, piece::KNIGHT, piece::ROOK,
    ]
}

/// Colour layout of the starting position.
pub open spec fn spec_start_color() -> Seq<usize> {
    seq![
        color::BLACK, color::BLACK, color::BLACK, color::BLACK,
            color::BLACK, color::BLACK, color::BLACK, color::BLACK,
        color::BLACK, color::BLACK, color::BLACK, color::BLACK,
            color::BLACK, color::BLACK, color::BLACK, color::BLACK,
        square::EMPTY, square::EMPTY, square::EMPTY, square::EMPTY,
            square::EMPTY, square::EMPTY, square::EMPTY, square::EMPTY,
        square::EMPTY, square::EMPTY, square::EMPTY, square::EMPTY,
            square::EMPTY, square::EMPTY, square::EMPTY, square::EMPTY,
        square::EMPTY, square::EMPTY, square::EMPTY, square::EMPTY,
            square::EMPTY, square::EMPTY, square::EMPTY, square::EMPTY,
        square::EMPTY, square::EMPTY, square::EMPTY, square::EMPTY,
            square::EMPTY, square::EMPTY, square::EMPTY, square::EMPTY,
        color::WHITE, color::WHITE, color::WHITE, color::WHITE,
            color::WHITE, color::WHITE, color::WHITE, color::WHITE,
        color::WHITE, color::WHITE, color::WHITE, color::WHITE,
            color::WHITE, color::WHITE, color::WHITE, color::WHITE,
    ]
}

} // verus!
