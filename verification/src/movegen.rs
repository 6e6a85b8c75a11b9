//! Pseudo-legal move generation.  Every move pushed into the buffer is
//! proved to satisfy `move_ok` — the shape `make_move` and `undo_move`
//! rely on — and to carry the position hash and its packed encoding.
//! In the other direction, whenever a pawn of the side to move can step
//! or capture onto the last rank, all four promotion moves are proved
//! to be in the output.  The list may still contain moves that leave
//! the mover's own king in check; `make_move` reports those and the
//! caller takes them back.

use vstd::prelude::*;
use crate::board::{castle_ok, castle_move_ok, ep_ok, move_ok, placement_ok, wf, BoardView, Sboard};
use crate::color;
use crate::moves;
use crate::piece;
use crate::square;

verus! {

/// The move that `gen_push` builds from an origin, a destination and a
/// move type, in a position with hash `hash`.
pub open spec fn mk_move(from: usize, dest: usize, tipe: usize, hash: u64) -> moves::Smove {
    moves::Smove {
        from: from,
        dest: dest,
        tipe: tipe,
        promotion_poly: moves::spec_promo_poly(tipe),
        encoded_move: moves::spec_encode_move(from, dest, tipe),
        hash: hash,
    }
}

/// What holds of every entry move generation appends.
pub open spec fn gen_entry_ok(v: BoardView, e: moves::Smove) -> bool {
    &&& move_ok(v, e)
    &&& e.hash == v.hash_key
    &&& e.promotion_poly == moves::spec_promo_poly(e.tipe)
    &&& e.encoded_move == moves::spec_encode_move(e.from, e.dest, e.tipe)
}

/// A pawn of the side to move may step or capture from `f` onto the
/// last rank square `t`: the situations in which promotion moves are
/// owed.
pub open spec fn promo_licensed(v: BoardView, f: usize, t: usize) -> bool {
    &&& f < 64
    &&& t < 64
    &&& v.piece[f as int] == piece::PAWN
    &&& v.color[f as int] == v.side
    &&& if v.side == color::WHITE {
        &&& t < 8
        &&& {
            ||| (t as int == f as int - 8 && v.color[t as int] == square::EMPTY)
            ||| (f as int % 8 != 0 && t as int == f as int - 9 && v.color[t as int]
                == color::BLACK)
            ||| (f as int % 8 < 7 && t as int == f as int - 7 && v.color[t as int]
                == color::BLACK)
        }
    } else {
        &&& t >= 56
        &&& {
            ||| (t as int == f as int + 8 && v.color[t as int] == square::EMPTY)
            ||| (f as int % 8 != 0 && t as int == f as int + 7 && v.color[t as int]
                == color::WHITE)
            ||| (f as int % 8 < 7 && t as int == f as int + 9 && v.color[t as int]
                == color::WHITE)
        }
    }
}

/// All four promotion moves from `f` to `t` stand in `s` at or after
/// position `lo`.
pub open spec fn promo_moves_present(
    v: BoardView,
    lo: int,
    s: Seq<moves::Smove>,
    f: usize,
    t: usize,
) -> bool {
    &&& exists|j: int| lo <= j < s.len() && (#[trigger] s[j]) == mk_move(
        f,
        t,
        moves::MOVE_TYPE_PROMOTION_TO_QUEEN,
        v.hash_key,
    )
    &&& exists|j: int| lo <= j < s.len() && (#[trigger] s[j]) == mk_move(
        f,
        t,
        moves::MOVE_TYPE_PROMOTION_TO_ROOK,
        v.hash_key,
    )
    &&& exists|j: int| lo <= j < s.len() && (#[trigger] s[j]) == mk_move(
        f,
        t,
        moves::MOVE_TYPE_PROMOTION_TO_BISHOP,
        v.hash_key,
    )
    &&& exists|j: int| lo <= j < s.len() && (#[trigger] s[j]) == mk_move(
        f,
        t,
        moves::MOVE_TYPE_PROMOTION_TO_KNIGHT,
        v.hash_key,
    )
}

/// Moves already present stay present when the buffer only grows.
proof fn lemma_present_stable(
    v: BoardView,
    lo: int,
    s1: Seq<moves::Smove>,
    s2: Seq<moves::Smove>,
    f: usize,
    t: usize,
)
    requires
        0 <= lo,
        promo_moves_present(v, lo, s1, f, t),
        s2.len() >= s1.len(),
        forall|j: int| 0 <= j < s1.len() ==> #[trigger] s2[j] == s1[j],
    ensures
        promo_moves_present(v, lo, s2, f, t),
{
    let jq = choose|j: int| lo <= j < s1.len() && (#[trigger] s1[j]) == mk_move(
        f,
        t,
        moves::MOVE_TYPE_PROMOTION_TO_QUEEN,
        v.hash_key,
    );
    assert(s2[jq] == s1[jq]);
    let jr = choose|j: int| lo <= j < s1.len() && (#[trigger] s1[j]) == mk_move(
        f,
        t,
        moves::MOVE_TYPE_PROMOTION_TO_ROOK,
        v.hash_key,
    );
    assert(s2[jr] == s1[jr]);
    let jb = choose|j: int| lo <= j < s1.len() && (#[trigger] s1[j]) == mk_move(
        f,
        t,
        moves::MOVE_TYPE_PROMOTION_TO_BISHOP,
        v.hash_key,
    );
    assert(s2[jb] == s1[jb]);
    let jn = choose|j: int| lo <= j < s1.len() && (#[trigger] s1[j]) == mk_move(
        f,
        t,
        moves::MOVE_TYPE_PROMOTION_TO_KNIGHT,
        v.hash_key,
    );
    assert(s2[jn] == s1[jn]);
}

impl Sboard {
    /// Append one move to the buffer and count it.
    fn gen_push(
        &self,
        from: usize,
        dest: usize,
        tipe: usize,
        p_buf: &mut Vec<moves::Smove>,
        p_mcount: &mut i32,
    )
        requires
            from < 64,
            dest < 64,
            *old(p_mcount) < i32::MAX,
            move_ok(self@, mk_move(from, dest, tipe, self@.hash_key)),
        ensures
            final(p_buf)@ == old(p_buf)@.push(mk_move(from, dest, tipe, self@.hash_key)),
            *final(p_mcount) == *old(p_mcount) + 1,
            gen_entry_ok(self@, mk_move(from, dest, tipe, self@.hash_key)),
    {
        let mut mov: moves::Smove = moves::Smove::new();
        mov.from = from;
        mov.dest = dest;
        mov.tipe = tipe;

        if tipe >= moves::MOVE_TYPE_PROMOTION_TO_QUEEN {
            if tipe == moves::MOVE_TYPE_PROMOTION_TO_QUEEN {
                mov.promotion_poly = moves::PROMOTION_POLY_QUEEN;
            } else if tipe == moves::MOVE_TYPE_PROMOTION_TO_ROOK {
                mov.promotion_poly = moves::PROMOTION_POLY_ROOK;
            } else if tipe == moves::MOVE_TYPE_PROMOTION_TO_BISHOP {
                mov.promotion_poly = moves::PROMOTION_POLY_BISHOP;
            } else {
                mov.promotion_poly = moves::PROMOTION_POLY_KNIGHT;
            }
        } else {
            mov.promotion_poly = moves::PROMOTION_POLY_NONE;
        }

        mov.encode_move();
        mov.hash = self.hash_key;
        assert(mov == mk_move(from, dest, tipe, self@.hash_key));
        p_buf.push(mov);
        *p_mcount = *p_mcount + 1;
    }

    /// Push a pawn move: an en-passant capture onto a marker square, a
    /// plain move inside the middle ranks, or the four promotions on
    /// reaching the last rank.
    fn gen_push_pawn(
        &self,
        from: usize,
        dest: usize,
        p_buf: &mut Vec<moves::Smove>,
        p_mcount: &mut i32,
    )
        requires
            placement_ok(self@.piece, self@.color),
            self@.side == color::WHITE || self@.side == color::BLACK,
            from < 64,
            dest < 64,
            from != dest,
            self@.piece[from as int] == piece::PAWN,
            self@.color[from as int] == self@.side,
            self@.color[dest as int] != self@.side,
            self@.piece[dest as int] == square::EPS_SQUARE ==> {
                &&& self@.side == color::WHITE ==> (from == dest + 7 || from == dest + 9)
                &&& self@.side == color::BLACK ==> (from + 7 == dest || from + 9 == dest)
            },
            self@.piece[dest as int] != square::EPS_SQUARE && !(7 < dest && dest < 56) ==> {
                &&& self@.side == color::WHITE ==> (8 <= from < 16 && dest < 8)
                &&& self@.side == color::BLACK ==> (48 <= from < 56 && 56 <= dest)
            },
            *old(p_mcount) <= i32::MAX - 4,
        ensures
            final(p_buf)@.len() >= old(p_buf)@.len(),
            forall|j: int| 0 <= j < old(p_buf)@.len() ==> #[trigger] final(p_buf)@[j] == old(
                p_buf,
            )@[j],
            final(p_buf)@.len() - old(p_buf)@.len() == *final(p_mcount) - *old(p_mcount),
            1 <= final(p_buf)@.len() - old(p_buf)@.len() <= 4,
            forall|j: int| old(p_buf)@.len() <= j < final(p_buf)@.len() ==> gen_entry_ok(
                self@,
                #[trigger] final(p_buf)@[j],
            ),
            self@.piece[dest as int] != square::EPS_SQUARE && !(7 < dest && dest < 56)
                ==> promo_moves_present(
                self@,
                old(p_buf)@.len() as int,
                final(p_buf)@,
                from,
                dest,
            ),
    {
        let ghost base = p_buf@;
        if self.piece[dest] == square::EPS_SQUARE {
            self.gen_push(from, dest, moves::MOVE_TYPE_EPS, p_buf, p_mcount);
        } else if dest > 7 && dest < 56 {
            self.gen_push(from, dest, moves::MOVE_TYPE_NORMAL, p_buf, p_mcount);
        } else {
            self.gen_push(from, dest, moves::MOVE_TYPE_PROMOTION_TO_QUEEN, p_buf, p_mcount);
            self.gen_push(from, dest, moves::MOVE_TYPE_PROMOTION_TO_ROOK, p_buf, p_mcount);
            self.gen_push(from, dest, moves::MOVE_TYPE_PROMOTION_TO_BISHOP, p_buf, p_mcount);
            self.gen_push(from, dest, moves::MOVE_TYPE_PROMOTION_TO_KNIGHT, p_buf, p_mcount);
            proof {
                assert(p_buf@[base.len() as int] == mk_move(
                    from,
                    dest,
                    moves::MOVE_TYPE_PROMOTION_TO_QUEEN,
                    self@.hash_key,
                ));
                assert(p_buf@[base.len() as int + 1] == mk_move(
                    from,
                    dest,
                    moves::MOVE_TYPE_PROMOTION_TO_ROOK,
                    self@.hash_key,
                ));
                assert(p_buf@[base.len() as int + 2] == mk_move(
                    from,
                    dest,
                    moves::MOVE_TYPE_PROMOTION_TO_BISHOP,
                    self@.hash_key,
                ));
                assert(p_buf@[base.len() as int + 3] == mk_move(
                    from,
                    dest,
                    moves::MOVE_TYPE_PROMOTION_TO_KNIGHT,
                    self@.hash_key,
                ));
                assert(promo_moves_present(self@, base.len() as int, p_buf@, from, dest));
            }
        }
    }

    /// Push a double pawn push.
    fn gen_push_pawn_two(
        &self,
        from: usize,
        dest: usize,
        p_buf: &mut Vec<moves::Smove>,
        p_mcount: &mut i32,
    )
        requires
            from < 64,
            dest < 64,
            *old(p_mcount) < i32::MAX,
            move_ok(self@, mk_move(from, dest, moves::MOVE_TYPE_PAWN_TWO, self@.hash_key)),
        ensures
            final(p_buf)@ == old(p_buf)@.push(
                mk_move(from, dest, moves::MOVE_TYPE_PAWN_TWO, self@.hash_key),
            ),
            *final(p_mcount) == *old(p_mcount) + 1,
            gen_entry_ok(self@, mk_move(from, dest, moves::MOVE_TYPE_PAWN_TWO, self@.hash_key)),
    {
        self.gen_push(from, dest, moves::MOVE_TYPE_PAWN_TWO, p_buf, p_mcount);
    }

    /// Push a plain move of a piece that is not a pawn.
    fn gen_push_normal(
        &self,
        from: usize,
        dest: usize,
        p_buf: &mut Vec<moves::Smove>,
        p_mcount: &mut i32,
    )
        requires
            from < 64,
            dest < 64,
            *old(p_mcount) < i32::MAX,
            move_ok(self@, mk_move(from, dest, moves::MOVE_TYPE_NORMAL, self@.hash_key)),
        ensures
            final(p_buf)@ == old(p_buf)@.push(
                mk_move(from, dest, moves::MOVE_TYPE_NORMAL, self@.hash_key),
            ),
            *final(p_mcount) == *old(p_mcount) + 1,
            gen_entry_ok(self@, mk_move(from, dest, moves::MOVE_TYPE_NORMAL, self@.hash_key)),
    {
        self.gen_push(from, dest, moves::MOVE_TYPE_NORMAL, p_buf, p_mcount);
    }

    /// Push a king move: the two-square hops from a king's home square
    /// are castlings, everything else is a plain move.
    fn gen_push_king(
        &self,
        from: usize,
        dest: usize,
        p_buf: &mut Vec<moves::Smove>,
        p_mcount: &mut i32,
    )
        requires
            from < 64,
            dest < 64,
            *old(p_mcount) < i32::MAX,
            (from == square::E1 && (dest == square::G1 || dest == square::C1)) || (from
                == square::E8 && (dest == square::G8 || dest == square::C8)) ==> move_ok(
                self@,
                mk_move(from, dest, moves::MOVE_TYPE_CASTLE, self@.hash_key),
            ),
            !((from == square::E1 && (dest == square::G1 || dest == square::C1)) || (from
                == square::E8 && (dest == square::G8 || dest == square::C8))) ==> move_ok(
                self@,
                mk_move(from, dest, moves::MOVE_TYPE_NORMAL, self@.hash_key),
            ),
        ensures
            final(p_buf)@.len() >= old(p_buf)@.len(),
            forall|j: int| 0 <= j < old(p_buf)@.len() ==> #[trigger] final(p_buf)@[j] == old(
                p_buf,
            )@[j],
            final(p_buf)@.len() == old(p_buf)@.len() + 1,
            *final(p_mcount) == *old(p_mcount) + 1,
            forall|j: int| old(p_buf)@.len() <= j < final(p_buf)@.len() ==> gen_entry_ok(
                self@,
                #[trigger] final(p_buf)@[j],
            ),
    {
        if from == square::E1 && (dest == square::G1 || dest == square::C1) {
            self.gen_push(from, dest, moves::MOVE_TYPE_CASTLE, p_buf, p_mcount);
        } else if from == square::E8 && (dest == square::G8 || dest == square::C8) {
            self.gen_push(from, dest, moves::MOVE_TYPE_CASTLE, p_buf, p_mcount);
        } else {
            self.gen_push(from, dest, moves::MOVE_TYPE_NORMAL, p_buf, p_mcount);
        }
    }

    /// Slide from `i` in direction (dr, dc), pushing a move onto every
    /// empty square and onto the first enemy piece.
    fn gen_ray(
        &self,
        i: usize,
        dr: i32,
        dc: i32,
        current_side: usize,
        p_buf: &mut Vec<moves::Smove>,
        p_mcount: &mut i32,
    )
        requires
            i < 64,
            -1 <= dr <= 1,
            -1 <= dc <= 1,
            !(dr == 0 && dc == 0),
            current_side == self@.side,
            self@.piece[i as int] == piece::BISHOP || self@.piece[i as int] == piece::ROOK
                || self@.piece[i as int] == piece::QUEEN,
            self@.color[i as int] == self@.side,
            *old(p_mcount) <= i32::MAX - 16,
        ensures
            final(p_buf)@.len() >= old(p_buf)@.len(),
            forall|j: int| 0 <= j < old(p_buf)@.len() ==> #[trigger] final(p_buf)@[j] == old(
                p_buf,
            )@[j],
            final(p_buf)@.len() - old(p_buf)@.len() == *final(p_mcount) - *old(p_mcount),
            final(p_buf)@.len() - old(p_buf)@.len() <= 14,
            forall|j: int| old(p_buf)@.len() <= j < final(p_buf)@.len() ==> gen_entry_ok(
                self@,
                #[trigger] final(p_buf)@[j],
            ),
    {
        let r0: i32 = (i / 8) as i32;
        let c0: i32 = (i % 8) as i32;
        let mut rr: i32 = r0;
        let mut cc: i32 = c0;
        let ghost buf0 = p_buf@;
        let ghost count0 = *p_mcount as int;
        loop
            invariant_except_break
                0 <= rr <= 7,
                0 <= cc <= 7,
            invariant
                i < 64,
                -1 <= dr <= 1,
                -1 <= dc <= 1,
                !(dr == 0 && dc == 0),
                current_side == self@.side,
                self@.piece[i as int] == piece::BISHOP || self@.piece[i as int] == piece::ROOK
                    || self@.piece[i as int] == piece::QUEEN,
                self@.color[i as int] == self@.side,
                r0 == i / 8,
                c0 == i % 8,
                dr == 1 ==> rr >= r0,
                dr == -1 ==> rr <= r0,
                dr == 0 ==> rr == r0,
                dc == 1 ==> cc >= c0,
                dc == -1 ==> cc <= c0,
                dc == 0 ==> cc == c0,
                p_buf@.len() >= buf0.len(),
                forall|j: int| 0 <= j < buf0.len() ==> #[trigger] p_buf@[j] == buf0[j],
                p_buf@.len() - buf0.len() == *p_mcount - count0,
                count0 <= *p_mcount,
                count0 <= i32::MAX - 16,
                p_buf@.len() - buf0.len() <= 14 - ((if dr >= 0 { 7 - rr as int } else { rr as int })
                    + (if dc >= 0 { 7 - cc as int } else { cc as int })),
                forall|j: int| buf0.len() <= j < p_buf@.len() ==> gen_entry_ok(
                    self@,
                    #[trigger] p_buf@[j],
                ),
            ensures
                p_buf@.len() >= buf0.len(),
                forall|j: int| 0 <= j < buf0.len() ==> #[trigger] p_buf@[j] == buf0[j],
                p_buf@.len() - buf0.len() == *p_mcount - count0,
                count0 <= *p_mcount,
                p_buf@.len() - buf0.len() <= 14,
                forall|j: int| buf0.len() <= j < p_buf@.len() ==> gen_entry_ok(
                    self@,
                    #[trigger] p_buf@[j],
                ),
            decreases (if dr >= 0 { 7 - rr as int } else { rr as int }) + (if dc >= 0 {
                7 - cc as int
            } else {
                cc as int
            }) + 2,
        {
            rr = rr + dr;
            cc = cc + dc;
            if !(0 <= rr && rr < 8 && 0 <= cc && cc < 8) {
                break;
            }
            let y = (rr * 8 + cc) as usize;
            assert(y < 64 && y != i);
            if self.color[y] != current_side {
                self.gen_push_normal(i, y, p_buf, p_mcount);
            }
            if self.color[y] != square::EMPTY {
                break;
            }
        }
    }
}

impl Sboard {
    /// All moves of the pawn standing on `i`.
    #[verifier::rlimit(100)]
    fn gen_pawn_sq(
        &self,
        i: usize,
        current_side: usize,
        p_buf: &mut Vec<moves::Smove>,
        p_mcount: &mut i32,
    )
        requires
            placement_ok(self@.piece, self@.color),
            ep_ok(self@),
            self@.side == color::WHITE || self@.side == color::BLACK,
            i < 64,
            current_side == self@.side,
            self@.piece[i as int] == piece::PAWN,
            self@.color[i as int] == self@.side,
            *old(p_mcount) <= i32::MAX - 32,
        ensures
            final(p_buf)@.len() >= old(p_buf)@.len(),
            forall|j: int| 0 <= j < old(p_buf)@.len() ==> #[trigger] final(p_buf)@[j] == old(
                p_buf,
            )@[j],
            final(p_buf)@.len() - old(p_buf)@.len() == *final(p_mcount) - *old(p_mcount),
            0 <= final(p_buf)@.len() - old(p_buf)@.len() <= 25,
            forall|j: int| old(p_buf)@.len() <= j < final(p_buf)@.len() ==> gen_entry_ok(
                self@,
                #[trigger] final(p_buf)@[j],
            ),
            forall|t: usize| #[trigger] promo_licensed(self@, i, t) ==> promo_moves_present(
                self@,
                old(p_buf)@.len() as int,
                final(p_buf)@,
                i,
                t,
            ),
    {
        let col = i % 8;
        let row = i / 8;
        let ghost buf0 = p_buf@;
        let ghost count0 = *p_mcount as int;
        assert(8 <= i < 56);
        if current_side == color::BLACK {
            if self.color[i + 8] == square::EMPTY {
                proof {
                    if self@.piece[i + 8] == square::EPS_SQUARE {
                        assert(i + 8 == self@.en_passant as int);
                        assert(false);
                    }
                }
                self.gen_push_pawn(i, i + 8, p_buf, p_mcount);
            }
        proof {
            assert(p_buf@.len() - buf0.len() == *p_mcount - count0);
            assert(p_buf@.len() - buf0.len() <= 4);
            assert(forall|j: int| 0 <= j < buf0.len() ==> #[trigger] p_buf@[j] == buf0[j]);
            assert(forall|j: int| buf0.len() <= j < p_buf@.len() ==> gen_entry_ok(
                self@,
                #[trigger] p_buf@[j],
            ));
        }
        proof {
            if promo_licensed(self@, i, (i + 8) as usize) {
                if self@.piece[i + 8] == square::EPS_SQUARE {
                    assert(i + 8 == self@.en_passant as int);
                    assert(false);
                }
                assert(promo_moves_present(self@, buf0.len() as int, p_buf@, i, (i + 8) as usize));
            }
        }
        let ghost z1 = p_buf@;
            if row == 1 && self.color[i + 8] == square::EMPTY && self.color[i + 16]
                == square::EMPTY {
                self.gen_push_pawn_two(i, i + 16, p_buf, p_mcount);
            }
        proof {
            assert(p_buf@.len() - buf0.len() == *p_mcount - count0);
            assert(p_buf@.len() - buf0.len() <= 5);
            assert(forall|j: int| 0 <= j < buf0.len() ==> #[trigger] p_buf@[j] == buf0[j]);
            assert(forall|j: int| buf0.len() <= j < p_buf@.len() ==> gen_entry_ok(
                self@,
                #[trigger] p_buf@[j],
            ));
        }
        proof {
            if promo_licensed(self@, i, (i + 8) as usize) {
                lemma_present_stable(self@, buf0.len() as int, z1, p_buf@, i, (i + 8) as usize);
            }
        }
        let ghost z2 = p_buf@;
            if col != 0 && self.color[i + 7] == color::WHITE {
                self.gen_push_pawn(i, i + 7, p_buf, p_mcount);
            }
        proof {
            assert(p_buf@.len() - buf0.len() == *p_mcount - count0);
            assert(p_buf@.len() - buf0.len() <= 9);
            assert(forall|j: int| 0 <= j < buf0.len() ==> #[trigger] p_buf@[j] == buf0[j]);
            assert(forall|j: int| buf0.len() <= j < p_buf@.len() ==> gen_entry_ok(
                self@,
                #[trigger] p_buf@[j],
            ));
        }
        proof {
            if promo_licensed(self@, i, (i + 8) as usize) {
                lemma_present_stable(self@, buf0.len() as int, z2, p_buf@, i, (i + 8) as usize);
            }
        }
        proof {
            if promo_licensed(self@, i, (i + 7) as usize) {
                assert(self@.piece[i + 7] <= piece::KING);
                assert(promo_moves_present(self@, buf0.len() as int, p_buf@, i, (i + 7) as usize));
            }
        }
        let ghost z3 = p_buf@;
            if col < 7 && self.color[i + 9] == color::WHITE {
                self.gen_push_pawn(i, i + 9, p_buf, p_mcount);
            }
        proof {
            assert(p_buf@.len() - buf0.len() == *p_mcount - count0);
            assert(p_buf@.len() - buf0.len() <= 13);
            assert(forall|j: int| 0 <= j < buf0.len() ==> #[trigger] p_buf@[j] == buf0[j]);
            assert(forall|j: int| buf0.len() <= j < p_buf@.len() ==> gen_entry_ok(
                self@,
                #[trigger] p_buf@[j],
            ));
        }
        proof {
            if promo_licensed(self@, i, (i + 8) as usize) {
                lemma_present_stable(self@, buf0.len() as int, z3, p_buf@, i, (i + 8) as usize);
            }
            if promo_licensed(self@, i, (i + 7) as usize) {
                lemma_present_stable(self@, buf0.len() as int, z3, p_buf@, i, (i + 7) as usize);
            }
        }
        proof {
            if promo_licensed(self@, i, (i + 9) as usize) {
                assert(self@.piece[i + 9] <= piece::KING);
                assert(promo_moves_present(self@, buf0.len() as int, p_buf@, i, (i + 9) as usize));
            }
        }
        let ghost z4 = p_buf@;
            if col != 0 && self.piece[i + 7] == square::EPS_SQUARE {
                self.gen_push_pawn(i, i + 7, p_buf, p_mcount);
            }
        proof {
            assert(p_buf@.len() - buf0.len() == *p_mcount - count0);
            assert(p_buf@.len() - buf0.len() <= 17);
            assert(forall|j: int| 0 <= j < buf0.len() ==> #[trigger] p_buf@[j] == buf0[j]);
            assert(forall|j: int| buf0.len() <= j < p_buf@.len() ==> gen_entry_ok(
                self@,
                #[trigger] p_buf@[j],
            ));
        }
        proof {
            if promo_licensed(self@, i, (i + 8) as usize) {
                lemma_present_stable(self@, buf0.len() as int, z4, p_buf@, i, (i + 8) as usize);
            }
            if promo_licensed(self@, i, (i + 7) as usize) {
                lemma_present_stable(self@, buf0.len() as int, z4, p_buf@, i, (i + 7) as usize);
            }
            if promo_licensed(self@, i, (i + 9) as usize) {
                lemma_present_stable(self@, buf0.len() as int, z4, p_buf@, i, (i + 9) as usize);
            }
        }
        let ghost z5 = p_buf@;
            if col < 7 && self.piece[i + 9] == square::EPS_SQUARE {
                assert(i + 9 < 64);
                self.gen_push_pawn(i, i + 9, p_buf, p_mcount);
            }
        proof {
            assert(p_buf@.len() - buf0.len() == *p_mcount - count0);
            assert(p_buf@.len() - buf0.len() <= 21);
            assert(forall|j: int| 0 <= j < buf0.len() ==> #[trigger] p_buf@[j] == buf0[j]);
            assert(forall|j: int| buf0.len() <= j < p_buf@.len() ==> gen_entry_ok(
                self@,
                #[trigger] p_buf@[j],
            ));
        }
        proof {
            if promo_licensed(self@, i, (i + 8) as usize) {
                lemma_present_stable(self@, buf0.len() as int, z5, p_buf@, i, (i + 8) as usize);
            }
            if promo_licensed(self@, i, (i + 7) as usize) {
                lemma_present_stable(self@, buf0.len() as int, z5, p_buf@, i, (i + 7) as usize);
            }
            if promo_licensed(self@, i, (i + 9) as usize) {
                lemma_present_stable(self@, buf0.len() as int, z5, p_buf@, i, (i + 9) as usize);
            }
        }
        proof {
            assert forall|t: usize| #[trigger] promo_licensed(self@, i, t)
                implies promo_moves_present(self@, buf0.len() as int, p_buf@, i, t) by {
                assert(t == (i + 8) as usize || t == (i + 7) as usize || t == (i + 9) as usize);
            }
        }
        } else {
            if self.color[i - 8] == square::EMPTY {
                proof {
                    if self@.piece[i - 8] == square::EPS_SQUARE {
                        assert(i - 8 == self@.en_passant as int);
                        assert(false);
                    }
                }
                self.gen_push_pawn(i, i - 8, p_buf, p_mcount);
            }
        proof {
            assert(p_buf@.len() - buf0.len() == *p_mcount - count0);
            assert(p_buf@.len() - buf0.len() <= 4);
            assert(forall|j: int| 0 <= j < buf0.len() ==> #[trigger] p_buf@[j] == buf0[j]);
            assert(forall|j: int| buf0.len() <= j < p_buf@.len() ==> gen_entry_ok(
                self@,
                #[trigger] p_buf@[j],
            ));
        }
        proof {
            if promo_licensed(self@, i, (i - 8) as usize) {
                if self@.piece[i - 8] == square::EPS_SQUARE {
                    assert(i - 8 == self@.en_passant as int);
                    assert(false);
                }
                assert(promo_moves_present(self@, buf0.len() as int, p_buf@, i, (i - 8) as usize));
            }
        }
        let ghost w1 = p_buf@;
            if row == 6 && self.color[i - 8] == square::EMPTY && self.color[i - 16]
                == square::EMPTY {
                self.gen_push_pawn_two(i, i - 16, p_buf, p_mcount);
            }
        proof {
            assert(p_buf@.len() - buf0.len() == *p_mcount - count0);
            assert(p_buf@.len() - buf0.len() <= 5);
            assert(forall|j: int| 0 <= j < buf0.len() ==> #[trigger] p_buf@[j] == buf0[j]);
            assert(forall|j: int| buf0.len() <= j < p_buf@.len() ==> gen_entry_ok(
                self@,
                #[trigger] p_buf@[j],
            ));
        }
        proof {
            if promo_licensed(self@, i, (i - 8) as usize) {
                lemma_present_stable(self@, buf0.len() as int, w1, p_buf@, i, (i - 8) as usize);
            }
        }
        let ghost w2 = p_buf@;
            if col != 0 && self.color[i - 9] == color::BLACK {
                self.gen_push_pawn(i, i - 9, p_buf, p_mcount);
            }
        proof {
            assert(p_buf@.len() - buf0.len() == *p_mcount - count0);
            assert(p_buf@.len() - buf0.len() <= 9);
            assert(forall|j: int| 0 <= j < buf0.len() ==> #[trigger] p_buf@[j] == buf0[j]);
            assert(forall|j: int| buf0.len() <= j < p_buf@.len() ==> gen_entry_ok(
                self@,
                #[trigger] p_buf@[j],
            ));
        }
        proof {
            if promo_licensed(self@, i, (i - 8) as usize) {
                lemma_present_stable(self@, buf0.len() as int, w2, p_buf@, i, (i - 8) as usize);
            }
        }
        proof {
            if i >= 9 && promo_licensed(self@, i, (i - 9) as usize) {
                assert(self@.piece[i - 9] <= piece::KING);
                assert(promo_moves_present(self@, buf0.len() as int, p_buf@, i, (i - 9) as usize));
            }
        }
        let ghost w3 = p_buf@;
            if col < 7 && self.color[i - 7] == color::BLACK {
                self.gen_push_pawn(i, i - 7, p_buf, p_mcount);
            }
        proof {
            assert(p_buf@.len() - buf0.len() == *p_mcount - count0);
            assert(p_buf@.len() - buf0.len() <= 13);
            assert(forall|j: int| 0 <= j < buf0.len() ==> #[trigger] p_buf@[j] == buf0[j]);
            assert(forall|j: int| buf0.len() <= j < p_buf@.len() ==> gen_entry_ok(
                self@,
                #[trigger] p_buf@[j],
            ));
        }
        proof {
            if promo_licensed(self@, i, (i - 8) as usize) {
                lemma_present_stable(self@, buf0.len() as int, w3, p_buf@, i, (i - 8) as usize);
            }
            if i >= 9 && promo_licensed(self@, i, (i - 9) as usize) {
                lemma_present_stable(self@, buf0.len() as int, w3, p_buf@, i, (i - 9) as usize);
            }
        }
        proof {
            if promo_licensed(self@, i, (i - 7) as usize) {
                assert(self@.piece[i - 7] <= piece::KING);
                assert(promo_moves_present(self@, buf0.len() as int, p_buf@, i, (i - 7) as usize));
            }
        }
        let ghost w4 = p_buf@;
            if col != 0 && self.piece[i - 9] == square::EPS_SQUARE {
                self.gen_push_pawn(i, i - 9, p_buf, p_mcount);
            }
        proof {
            assert(p_buf@.len() - buf0.len() == *p_mcount - count0);
            assert(p_buf@.len() - buf0.len() <= 17);
            assert(forall|j: int| 0 <= j < buf0.len() ==> #[trigger] p_buf@[j] == buf0[j]);
            assert(forall|j: int| buf0.len() <= j < p_buf@.len() ==> gen_entry_ok(
                self@,
                #[trigger] p_buf@[j],
            ));
        }
        proof {
            if promo_licensed(self@, i, (i - 8) as usize) {
                lemma_present_stable(self@, buf0.len() as int, w4, p_buf@, i, (i - 8) as usize);
            }
            if i >= 9 && promo_licensed(self@, i, (i - 9) as usize) {
                lemma_present_stable(self@, buf0.len() as int, w4, p_buf@, i, (i - 9) as usize);
            }
            if promo_licensed(self@, i, (i - 7) as usize) {
                lemma_present_stable(self@, buf0.len() as int, w4, p_buf@, i, (i - 7) as usize);
            }
        }
        let ghost w5 = p_buf@;
            if col < 7 && self.piece[i - 7] == square::EPS_SQUARE {
                self.gen_push_pawn(i, i - 7, p_buf, p_mcount);
            }
        proof {
            assert(p_buf@.len() - buf0.len() == *p_mcount - count0);
            assert(p_buf@.len() - buf0.len() <= 21);
            assert(forall|j: int| 0 <= j < buf0.len() ==> #[trigger] p_buf@[j] == buf0[j]);
            assert(forall|j: int| buf0.len() <= j < p_buf@.len() ==> gen_entry_ok(
                self@,
                #[trigger] p_buf@[j],
            ));
        }
        proof {
            if promo_licensed(self@, i, (i - 8) as usize) {
                lemma_present_stable(self@, buf0.len() as int, w5, p_buf@, i, (i - 8) as usize);
            }
            if i >= 9 && promo_licensed(self@, i, (i - 9) as usize) {
                lemma_present_stable(self@, buf0.len() as int, w5, p_buf@, i, (i - 9) as usize);
            }
            if promo_licensed(self@, i, (i - 7) as usize) {
                lemma_present_stable(self@, buf0.len() as int, w5, p_buf@, i, (i - 7) as usize);
            }
        }
        proof {
            assert forall|t: usize| #[trigger] promo_licensed(self@, i, t)
                implies promo_moves_present(self@, buf0.len() as int, p_buf@, i, t) by {
                assert(t == (i - 8) as usize || t == (i - 9) as usize || t == (i - 7) as usize);
            }
        }
        }
    }
}

impl Sboard {
    /// All moves of the knight standing on `i`.
    #[verifier::rlimit(100)]
    fn gen_knight_sq(
        &self,
        i: usize,
        current_side: usize,
        p_buf: &mut Vec<moves::Smove>,
        p_mcount: &mut i32,
    )
        requires
            i < 64,
            current_side == self@.side,
            self@.piece[i as int] == piece::KNIGHT,
            self@.color[i as int] == self@.side,
            *old(p_mcount) <= i32::MAX - 16,
        ensures
            final(p_buf)@.len() >= old(p_buf)@.len(),
            forall|j: int| 0 <= j < old(p_buf)@.len() ==> #[trigger] final(p_buf)@[j] == old(
                p_buf,
            )@[j],
            final(p_buf)@.len() - old(p_buf)@.len() == *final(p_mcount) - *old(p_mcount),
            0 <= final(p_buf)@.len() - old(p_buf)@.len() <= 8,
            forall|j: int| old(p_buf)@.len() <= j < final(p_buf)@.len() ==> gen_entry_ok(
                self@,
                #[trigger] final(p_buf)@[j],
            ),
    {
        let col = i % 8;
        let ghost buf0 = p_buf@;
        let ghost count0 = *p_mcount as int;
        if i >= 6 && col < 6 && self.color[i - 6] != current_side {
            self.gen_push_normal(i, i - 6, p_buf, p_mcount);
        }
        proof {
            assert(p_buf@.len() - buf0.len() == *p_mcount - count0);
            assert(p_buf@.len() - buf0.len() <= 1);
            assert(forall|j: int| 0 <= j < buf0.len() ==> #[trigger] p_buf@[j] == buf0[j]);
            assert(forall|j: int| buf0.len() <= j < p_buf@.len() ==> gen_entry_ok(
                self@,
                #[trigger] p_buf@[j],
            ));
        }
        if i >= 10 && col > 1 && self.color[i - 10] != current_side {
            self.gen_push_normal(i, i - 10, p_buf, p_mcount);
        }
        proof {
            assert(p_buf@.len() - buf0.len() == *p_mcount - count0);
            assert(p_buf@.len() - buf0.len() <= 2);
            assert(forall|j: int| 0 <= j < buf0.len() ==> #[trigger] p_buf@[j] == buf0[j]);
            assert(forall|j: int| buf0.len() <= j < p_buf@.len() ==> gen_entry_ok(
                self@,
                #[trigger] p_buf@[j],
            ));
        }
        if i >= 15 && col < 7 && self.color[i - 15] != current_side {
            self.gen_push_normal(i, i - 15, p_buf, p_mcount);
        }
        proof {
            assert(p_buf@.len() - buf0.len() == *p_mcount - count0);
            assert(p_buf@.len() - buf0.len() <= 3);
            assert(forall|j: int| 0 <= j < buf0.len() ==> #[trigger] p_buf@[j] == buf0[j]);
            assert(forall|j: int| buf0.len() <= j < p_buf@.len() ==> gen_entry_ok(
                self@,
                #[trigger] p_buf@[j],
            ));
        }
        if i >= 17 && col > 0 && self.color[i - 17] != current_side {
            self.gen_push_normal(i, i - 17, p_buf, p_mcount);
        }
        proof {
            assert(p_buf@.len() - buf0.len() == *p_mcount - count0);
            assert(p_buf@.len() - buf0.len() <= 4);
            assert(forall|j: int| 0 <= j < buf0.len() ==> #[trigger] p_buf@[j] == buf0[j]);
            assert(forall|j: int| buf0.len() <= j < p_buf@.len() ==> gen_entry_ok(
                self@,
                #[trigger] p_buf@[j],
            ));
        }
        if i + 6 < 64 && col > 1 && self.color[i + 6] != current_side {
            self.gen_push_normal(i, i + 6, p_buf, p_mcount);
        }
        proof {
            assert(p_buf@.len() - buf0.len() == *p_mcount - count0);
            assert(p_buf@.len() - buf0.len() <= 5);
            assert(forall|j: int| 0 <= j < buf0.len() ==> #[trigger] p_buf@[j] == buf0[j]);
            assert(forall|j: int| buf0.len() <= j < p_buf@.len() ==> gen_entry_ok(
                self@,
                #[trigger] p_buf@[j],
            ));
        }
        if i + 10 < 64 && col < 6 && self.color[i + 10] != current_side {
            self.gen_push_normal(i, i + 10, p_buf, p_mcount);
        }
        proof {
            assert(p_buf@.len() - buf0.len() == *p_mcount - count0);
            assert(p_buf@.len() - buf0.len() <= 6);
            assert(forall|j: int| 0 <= j < buf0.len() ==> #[trigger] p_buf@[j] == buf0[j]);
            assert(forall|j: int| buf0.len() <= j < p_buf@.len() ==> gen_entry_ok(
                self@,
                #[trigger] p_buf@[j],
            ));
        }
        if i + 15 < 64 && col > 0 && self.color[i + 15] != current_side {
            self.gen_push_normal(i, i + 15, p_buf, p_mcount);
        }
        proof {
            assert(p_buf@.len() - buf0.len() == *p_mcount - count0);
            assert(p_buf@.len() - buf0.len() <= 7);
            assert(forall|j: int| 0 <= j < buf0.len() ==> #[trigger] p_buf@[j] == buf0[j]);
            assert(forall|j: int| buf0.len() <= j < p_buf@.len() ==> gen_entry_ok(
                self@,
                #[trigger] p_buf@[j],
            ));
        }
        if i + 17 < 64 && col < 7 && self.color[i + 17] != current_side {
            self.gen_push_normal(i, i + 17, p_buf, p_mcount);
        }
        proof {
            assert(p_buf@.len() - buf0.len() == *p_mcount - count0);
            assert(p_buf@.len() - buf0.len() <= 8);
            assert(forall|j: int| 0 <= j < buf0.len() ==> #[trigger] p_buf@[j] == buf0[j]);
            assert(forall|j: int| buf0.len() <= j < p_buf@.len() ==> gen_entry_ok(
                self@,
                #[trigger] p_buf@[j],
            ));
        }
    }

    /// All moves of the king standing on `i`, castlings included.
    #[verifier::rlimit(100)]
    fn gen_king_sq(
        &self,
        i: usize,
        current_side: usize,
        p_buf: &mut Vec<moves::Smove>,
        p_mcount: &mut i32,
    )
        requires
            placement_ok(self@.piece, self@.color),
            ep_ok(self@),
            castle_ok(self@),
            self@.side == color::WHITE || self@.side == color::BLACK,
            i < 64,
            current_side == self@.side,
            self@.piece[i as int] == piece::KING,
            self@.color[i as int] == self@.side,
            *old(p_mcount) <= i32::MAX - 16,
        ensures
            final(p_buf)@.len() >= old(p_buf)@.len(),
            forall|j: int| 0 <= j < old(p_buf)@.len() ==> #[trigger] final(p_buf)@[j] == old(
                p_buf,
            )@[j],
            final(p_buf)@.len() - old(p_buf)@.len() == *final(p_mcount) - *old(p_mcount),
            0 <= final(p_buf)@.len() - old(p_buf)@.len() <= 10,
            forall|j: int| old(p_buf)@.len() <= j < final(p_buf)@.len() ==> gen_entry_ok(
                self@,
                #[trigger] final(p_buf)@[j],
            ),
    {
        let col = i % 8;
        let ghost buf0 = p_buf@;
        let ghost count0 = *p_mcount as int;
        if col != 0 && self.color[i - 1] != current_side {
            self.gen_push_king(i, i - 1, p_buf, p_mcount);
        }
        proof {
            assert(p_buf@.len() - buf0.len() == *p_mcount - count0);
            assert(forall|j: int| 0 <= j < buf0.len() ==> #[trigger] p_buf@[j] == buf0[j]);
            assert(forall|j: int| buf0.len() <= j < p_buf@.len() ==> gen_entry_ok(
                self@,
                #[trigger] p_buf@[j],
            ));
        }

        if col < 7 && self.color[i + 1] != current_side {
            self.gen_push_king(i, i + 1, p_buf, p_mcount);
        }
        proof {
            assert(p_buf@.len() - buf0.len() == *p_mcount - count0);
            assert(forall|j: int| 0 <= j < buf0.len() ==> #[trigger] p_buf@[j] == buf0[j]);
            assert(forall|j: int| buf0.len() <= j < p_buf@.len() ==> gen_entry_ok(
                self@,
                #[trigger] p_buf@[j],
            ));
        }

        if i > 7 && self.color[i - 8] != current_side {
            self.gen_push_king(i, i - 8, p_buf, p_mcount);
        }
        proof {
            assert(p_buf@.len() - buf0.len() == *p_mcount - count0);
            assert(forall|j: int| 0 <= j < buf0.len() ==> #[trigger] p_buf@[j] == buf0[j]);
            assert(forall|j: int| buf0.len() <= j < p_buf@.len() ==> gen_entry_ok(
                self@,
                #[trigger] p_buf@[j],
            ));
        }

        if i < 56 && self.color[i + 8] != current_side {
            self.gen_push_king(i, i + 8, p_buf, p_mcount);
        }
        proof {
            assert(p_buf@.len() - buf0.len() == *p_mcount - count0);
            assert(forall|j: int| 0 <= j < buf0.len() ==> #[trigger] p_buf@[j] == buf0[j]);
            assert(forall|j: int| buf0.len() <= j < p_buf@.len() ==> gen_entry_ok(
                self@,
                #[trigger] p_buf@[j],
            ));
        }

        if col != 0 && i > 7 && self.color[i - 9] != current_side {
            self.gen_push_king(i, i - 9, p_buf, p_mcount);
        }
        proof {
            assert(p_buf@.len() - buf0.len() == *p_mcount - count0);
            assert(forall|j: int| 0 <= j < buf0.len() ==> #[trigger] p_buf@[j] == buf0[j]);
            assert(forall|j: int| buf0.len() <= j < p_buf@.len() ==> gen_entry_ok(
                self@,
                #[trigger] p_buf@[j],
            ));
        }

        if col < 7 && i > 7 && self.color[i - 7] != current_side {
            self.gen_push_king(i, i - 7, p_buf, p_mcount);
        }
        proof {
            assert(p_buf@.len() - buf0.len() == *p_mcount - count0);
            assert(forall|j: int| 0 <= j < buf0.len() ==> #[trigger] p_buf@[j] == buf0[j]);
            assert(forall|j: int| buf0.len() <= j < p_buf@.len() ==> gen_entry_ok(
                self@,
                #[trigger] p_buf@[j],
            ));
        }

        if col != 0 && i < 56 && self.color[i + 7] != current_side {
            self.gen_push_king(i, i + 7, p_buf, p_mcount);
        }
        proof {
            assert(p_buf@.len() - buf0.len() == *p_mcount - count0);
            assert(forall|j: int| 0 <= j < buf0.len() ==> #[trigger] p_buf@[j] == buf0[j]);
            assert(forall|j: int| buf0.len() <= j < p_buf@.len() ==> gen_entry_ok(
                self@,
                #[trigger] p_buf@[j],
            ));
        }

        if col < 7 && i < 56 && self.color[i + 9] != current_side {
            self.gen_push_king(i, i + 9, p_buf, p_mcount);
        }
        proof {
            assert(p_buf@.len() - buf0.len() == *p_mcount - count0);
            assert(forall|j: int| 0 <= j < buf0.len() ==> #[trigger] p_buf@[j] == buf0[j]);
            assert(forall|j: int| buf0.len() <= j < p_buf@.len() ==> gen_entry_ok(
                self@,
                #[trigger] p_buf@[j],
            ));
        }

        if current_side == color::WHITE && i == square::E1 {
            if (self.castle_rights & 1) != 0 && self.color[i + 1] == square::EMPTY
                && self.color[i + 2] == square::EMPTY && !self.is_in_check(current_side)
                && !self.is_attacked(current_side, (i + 1) as i16) {
                self.gen_push_king(i, i + 2, p_buf, p_mcount);
            }
        proof {
            assert(p_buf@.len() - buf0.len() == *p_mcount - count0);
            assert(forall|j: int| 0 <= j < buf0.len() ==> #[trigger] p_buf@[j] == buf0[j]);
            assert(forall|j: int| buf0.len() <= j < p_buf@.len() ==> gen_entry_ok(
                self@,
                #[trigger] p_buf@[j],
            ));
        }
            if (self.castle_rights & 2) != 0 && self.color[i - 1] == square::EMPTY
                && self.color[i - 2] == square::EMPTY && self.color[i - 3] == square::EMPTY
                && !self.is_in_check(current_side) && !self.is_attacked(
                current_side,
                (i - 1) as i16,
            ) {
                self.gen_push_king(i, i - 2, p_buf, p_mcount);
            }
        } else if current_side == color::BLACK && i == square::E8 {
            if (self.castle_rights & 4) != 0 && self.color[i + 1] == square::EMPTY
                && self.color[i + 2] == square::EMPTY && self.piece[i + 3] == piece::ROOK
                && !self.is_in_check(current_side) && !self.is_attacked(
                current_side,
                (i + 1) as i16,
            ) {
                self.gen_push_king(i, i + 2, p_buf, p_mcount);
            }
        proof {
            assert(p_buf@.len() - buf0.len() == *p_mcount - count0);
            assert(forall|j: int| 0 <= j < buf0.len() ==> #[trigger] p_buf@[j] == buf0[j]);
            assert(forall|j: int| buf0.len() <= j < p_buf@.len() ==> gen_entry_ok(
                self@,
                #[trigger] p_buf@[j],
            ));
        }
            if (self.castle_rights & 8) != 0 && self.color[i - 1] == square::EMPTY
                && self.color[i - 2] == square::EMPTY && self.color[i - 3] == square::EMPTY
                && self.piece[i - 4] == piece::ROOK && !self.is_in_check(current_side)
                && !self.is_attacked(current_side, (i - 1) as i16) {
                self.gen_push_king(i, i - 2, p_buf, p_mcount);
            }
        }
    }

    /// Generate all pseudo-legal moves of the side to move into `p_buf`
    /// and return how many were added.  Every appended entry satisfies
    /// `gen_entry_ok`: it is a `move_ok` move carrying the position
    /// hash and its packed encoding.  The list may still hold moves
    /// that leave the mover's own king in check.
    pub fn gen_moves(&self, p_buf: &mut Vec<moves::Smove>) -> (r: i32)
        requires
            wf(self@),
        ensures
            final(p_buf)@.len() >= old(p_buf)@.len(),
            forall|j: int| 0 <= j < old(p_buf)@.len() ==> #[trigger] final(p_buf)@[j] == old(
                p_buf,
            )@[j],
            r as int == final(p_buf)@.len() - old(p_buf)@.len(),
            forall|j: int| old(p_buf)@.len() <= j < final(p_buf)@.len() ==> gen_entry_ok(
                self@,
                #[trigger] final(p_buf)@[j],
            ),
            forall|f: usize, t: usize| #[trigger] promo_licensed(self@, f, t)
                ==> promo_moves_present(self@, old(p_buf)@.len() as int, final(p_buf)@, f, t),
    {
        let mut movecount: i32 = 0;
        let current_side = self.get_side();
        let ghost buf0 = p_buf@;

        let mut i: usize = 0;
        while i < 64
            invariant
                placement_ok(self@.piece, self@.color),
                ep_ok(self@),
                castle_ok(self@),
                self@.side == color::WHITE || self@.side == color::BLACK,
                current_side == self@.side,
                i <= 64,
                p_buf@.len() >= buf0.len(),
                forall|j: int| 0 <= j < buf0.len() ==> #[trigger] p_buf@[j] == buf0[j],
                p_buf@.len() - buf0.len() == movecount as int,
                0 <= movecount as int <= 128 * i as int,
                forall|j: int| buf0.len() <= j < p_buf@.len() ==> gen_entry_ok(
                    self@,
                    #[trigger] p_buf@[j],
                ),
                forall|f: usize, t: usize| f < i && #[trigger] promo_licensed(self@, f, t)
                    ==> promo_moves_present(self@, buf0.len() as int, p_buf@, f, t),
            ensures
                p_buf@.len() >= buf0.len(),
                forall|j: int| 0 <= j < buf0.len() ==> #[trigger] p_buf@[j] == buf0[j],
                p_buf@.len() - buf0.len() == movecount as int,
                forall|j: int| buf0.len() <= j < p_buf@.len() ==> gen_entry_ok(
                    self@,
                    #[trigger] p_buf@[j],
                ),
                forall|f: usize, t: usize| #[trigger] promo_licensed(self@, f, t)
                    ==> promo_moves_present(self@, buf0.len() as int, p_buf@, f, t),
            decreases 64 - i,
        {
            let ghost head = p_buf@;
            if self.color[i] == current_side {
                if self.piece[i] == piece::PAWN {
                    self.gen_pawn_sq(i, current_side, p_buf, &mut movecount);
                } else if self.piece[i] == piece::QUEEN {
                    self.gen_ray(i, -1, -1, current_side, p_buf, &mut movecount);
                    self.gen_ray(i, -1, 1, current_side, p_buf, &mut movecount);
                    self.gen_ray(i, 1, 1, current_side, p_buf, &mut movecount);
                    self.gen_ray(i, 1, -1, current_side, p_buf, &mut movecount);
                    self.gen_ray(i, 0, -1, current_side, p_buf, &mut movecount);
                    self.gen_ray(i, 0, 1, current_side, p_buf, &mut movecount);
                    self.gen_ray(i, -1, 0, current_side, p_buf, &mut movecount);
                    self.gen_ray(i, 1, 0, current_side, p_buf, &mut movecount);
                } else if self.piece[i] == piece::BISHOP {
                    self.gen_ray(i, -1, -1, current_side, p_buf, &mut movecount);
                    self.gen_ray(i, -1, 1, current_side, p_buf, &mut movecount);
                    self.gen_ray(i, 1, 1, current_side, p_buf, &mut movecount);
                    self.gen_ray(i, 1, -1, current_side, p_buf, &mut movecount);
                } else if self.piece[i] == piece::ROOK {
                    self.gen_ray(i, 0, -1, current_side, p_buf, &mut movecount);
                    self.gen_ray(i, 0, 1, current_side, p_buf, &mut movecount);
                    self.gen_ray(i, -1, 0, current_side, p_buf, &mut movecount);
                    self.gen_ray(i, 1, 0, current_side, p_buf, &mut movecount);
                } else if self.piece[i] == piece::KNIGHT {
                    self.gen_knight_sq(i, current_side, p_buf, &mut movecount);
                } else if self.piece[i] == piece::KING {
                    self.gen_king_sq(i, current_side, p_buf, &mut movecount);
                }
            }
            proof {
                assert forall|f: usize, t: usize| f < i + 1 && #[trigger] promo_licensed(
                    self@,
                    f,
                    t,
                ) implies promo_moves_present(self@, buf0.len() as int, p_buf@, f, t) by {
                    if f < i {
                        lemma_present_stable(self@, buf0.len() as int, head, p_buf@, f, t);
                    }
                }
            }
            i = i + 1;
        }
        movecount
    }
}

} // verus!
