//! Whether a square is attacked: the one predicate behind both castling
//! legality and the self-check test after a move.

use vstd::prelude::*;
use crate::board::Sboard;
use crate::color;
use crate::piece;
use crate::square;

verus! {

pub open spec fn in_board(r: int, c: int) -> bool {
    0 <= r < 8 && 0 <= c < 8
}

/// The first square holding a piece on the ray leaving (r, c) in
/// direction (dr, dc), skipping empty squares and en-passant markers.
pub open spec fn ray_first(p: Seq<usize>, r: int, c: int, dr: int, dc: int) -> Option<usize>
    decreases (if dr >= 0 { 7 - r } else { r }) + (if dc >= 0 { 7 - c } else { c }),
{
    let r2 = r + dr;
    let c2 = c + dc;
    if dr == 0 && dc == 0 {
        None
    } else if !in_board(r2, c2) {
        None
    } else if p[8 * r2 + c2] != square::EMPTY && p[8 * r2 + c2] != square::EPS_SQUARE {
        Some((8 * r2 + c2) as usize)
    } else {
        ray_first(p, r2, c2, dr, dc)
    }
}

/// A knight of `xside` gives check to square `k`.
pub open spec fn knight_attacks(p: Seq<usize>, cl: Seq<usize>, xside: usize, k: int) -> bool {
    let r = k / 8;
    let c = k % 8;
    ||| (in_board(r - 2, c - 1) && p[k - 17] == piece::KNIGHT && cl[k - 17] == xside)
    ||| (in_board(r - 2, c + 1) && p[k - 15] == piece::KNIGHT && cl[k - 15] == xside)
    ||| (in_board(r - 1, c - 2) && p[k - 10] == piece::KNIGHT && cl[k - 10] == xside)
    ||| (in_board(r - 1, c + 2) && p[k - 6] == piece::KNIGHT && cl[k - 6] == xside)
    ||| (in_board(r + 1, c - 2) && p[k + 6] == piece::KNIGHT && cl[k + 6] == xside)
    ||| (in_board(r + 1, c + 2) && p[k + 10] == piece::KNIGHT && cl[k + 10] == xside)
    ||| (in_board(r + 2, c - 1) && p[k + 15] == piece::KNIGHT && cl[k + 15] == xside)
    ||| (in_board(r + 2, c + 1) && p[k + 17] == piece::KNIGHT && cl[k + 17] == xside)
}

/// A rook-line attacker of `xside` reaches `k` along (dr, dc): the first
/// piece on the ray is an enemy queen or rook, or an enemy king one step
/// away.
pub open spec fn straight_attacks(
    p: Seq<usize>,
    cl: Seq<usize>,
    xside: usize,
    k: int,
    dr: int,
    dc: int,
) -> bool {
    match ray_first(p, k / 8, k % 8, dr, dc) {
        Some(y) => cl[y as int] == xside && (p[y as int] == piece::QUEEN
            || p[y as int] == piece::ROOK || (p[y as int] == piece::KING && y as int
            == 8 * (k / 8 + dr) + (k % 8 + dc))),
        None => false,
    }
}

/// A bishop-line attacker of `xside` reaches `k` along (dr, dc): the
/// first piece on the ray is an enemy queen or bishop, or, one step
/// away, an enemy king or an enemy pawn facing the attacked side.
pub open spec fn diag_attacks(
    p: Seq<usize>,
    cl: Seq<usize>,
    current_side: usize,
    xside: usize,
    k: int,
    dr: int,
    dc: int,
) -> bool {
    match ray_first(p, k / 8, k % 8, dr, dc) {
        Some(y) => {
            let adjacent = y as int == 8 * (k / 8 + dr) + (k % 8 + dc);
            cl[y as int] == xside && (p[y as int] == piece::QUEEN
                || p[y as int] == piece::BISHOP || (adjacent && p[y as int]
                == piece::KING) || (adjacent && p[y as int] == piece::PAWN && (
            if current_side == color::WHITE {
                dr == -1
            } else {
                dr == 1
            })))
        },
        None => false,
    }
}

/// The opponent of `current_side` attacks square `k`.
pub open spec fn spec_attacked(p: Seq<usize>, cl: Seq<usize>, current_side: usize, k: int) -> bool {
    let xside = (1 - current_side) as usize;
    ||| knight_attacks(p, cl, xside, k)
    ||| straight_attacks(p, cl, xside, k, 1, 0)
    ||| straight_attacks(p, cl, xside, k, -1, 0)
    ||| straight_attacks(p, cl, xside, k, 0, 1)
    ||| straight_attacks(p, cl, xside, k, 0, -1)
    ||| diag_attacks(p, cl, current_side, xside, k, 1, 1)
    ||| diag_attacks(p, cl, current_side, xside, k, 1, -1)
    ||| diag_attacks(p, cl, current_side, xside, k, -1, 1)
    ||| diag_attacks(p, cl, current_side, xside, k, -1, -1)
}

/// The lowest square from `i` upward holding a king of `side`, or 63.
pub open spec fn king_from(p: Seq<usize>, cl: Seq<usize>, side: usize, i: int) -> int
    decreases 64 - i,
{
    if i < 0 || i >= 64 {
        63
    } else if p[i] == piece::KING && cl[i] == side {
        i
    } else {
        king_from(p, cl, side, i + 1)
    }
}

/// The king square the in-check test looks at.
pub open spec fn spec_king_sq(p: Seq<usize>, cl: Seq<usize>, side: usize) -> int {
    king_from(p, cl, side, 0)
}

/// `side`'s king stands on a square the opponent attacks.
pub open spec fn spec_in_check(p: Seq<usize>, cl: Seq<usize>, side: usize) -> bool {
    spec_attacked(p, cl, side, spec_king_sq(p, cl, side))
}

/// Walk the ray from `k` in direction (dr, dc) and return the first
/// square holding a piece.
fn ray_scan(p: &[usize; 64], k: usize, dr: i32, dc: i32) -> (res: Option<usize>)
    requires
        k < 64,
        -1 <= dr <= 1,
        -1 <= dc <= 1,
        !(dr == 0 && dc == 0),
    ensures
        res == ray_first(p@, k as int / 8, k as int % 8, dr as int, dc as int),
        res matches Some(y) ==> y < 64,
{
    let mut rr: i32 = (k / 8) as i32;
    let mut cc: i32 = (k % 8) as i32;
    loop
        invariant
            -1 <= rr <= 8,
            -1 <= cc <= 8,
            -1 <= dr <= 1,
            -1 <= dc <= 1,
            !(dr == 0 && dc == 0),
            ray_first(p@, k as int / 8, k as int % 8, dr as int, dc as int) == ray_first(
                p@,
                rr as int,
                cc as int,
                dr as int,
                dc as int,
            ),
        decreases (if dr >= 0 { 7 - rr as int } else { rr as int }) + (if dc >= 0 {
            7 - cc as int
        } else {
            cc as int
        }) + 2,
    {
        rr = rr + dr;
        cc = cc + dc;
        if !(0 <= rr && rr < 8 && 0 <= cc && cc < 8) {
            return None;
        }
        let sq = (rr * 8 + cc) as usize;
        assert(sq < 64);
        if p[sq] != square::EMPTY && p[sq] != square::EPS_SQUARE {
            return Some(sq);
        }
    }
}

impl Sboard {
    /// Does the opponent of `current_side` attack square `k`?
    pub fn is_attacked(&self, current_side: usize, k: i16) -> (r: bool)
        requires
            0 <= k < 64,
            current_side == color::WHITE || current_side == color::BLACK,
        ensures
            r == spec_attacked(self@.piece, self@.color, current_side, k as int),
    {
        let xside: usize = (color::WHITE + color::BLACK) - current_side;
        let ku = k as usize;
        let row = ku / 8;
        let col = ku % 8;

        let n1 = col > 0 && row > 1 && self.color[ku - 17] == xside && self.piece[ku - 17]
            == piece::KNIGHT;
        let n2 = col < 7 && row > 1 && self.color[ku - 15] == xside && self.piece[ku - 15]
            == piece::KNIGHT;
        let n3 = col > 1 && row > 0 && self.color[ku - 10] == xside && self.piece[ku - 10]
            == piece::KNIGHT;
        let n4 = col < 6 && row > 0 && self.color[ku - 6] == xside && self.piece[ku - 6]
            == piece::KNIGHT;
        let n5 = col > 1 && row < 7 && self.color[ku + 6] == xside && self.piece[ku + 6]
            == piece::KNIGHT;
        let n6 = col < 6 && row < 7 && self.color[ku + 10] == xside && self.piece[ku + 10]
            == piece::KNIGHT;
        let n7 = col > 0 && row < 6 && self.color[ku + 15] == xside && self.piece[ku + 15]
            == piece::KNIGHT;
        let n8 = col < 7 && row < 6 && self.color[ku + 17] == xside && self.piece[ku + 17]
            == piece::KNIGHT;
        let knight = n1 || n2 || n3 || n4 || n5 || n6 || n7 || n8;
        assert(knight == knight_attacks(self@.piece, self@.color, xside, k as int));

        let down = self.straight_hit(xside, ku, 1, 0);
        let up = self.straight_hit(xside, ku, -1, 0);
        let right = self.straight_hit(xside, ku, 0, 1);
        let left = self.straight_hit(xside, ku, 0, -1);

        let rd = self.diag_hit(current_side, xside, ku, 1, 1);
        let ld = self.diag_hit(current_side, xside, ku, 1, -1);
        let ru = self.diag_hit(current_side, xside, ku, -1, 1);
        let lu = self.diag_hit(current_side, xside, ku, -1, -1);

        knight || down || up || right || left || rd || ld || ru || lu
    }

    /// Classify the first piece on a rook line from `k`.
    fn straight_hit(&self, xside: usize, k: usize, dr: i32, dc: i32) -> (r: bool)
        requires
            k < 64,
            -1 <= dr <= 1,
            -1 <= dc <= 1,
            !(dr == 0 && dc == 0),
        ensures
            r == straight_attacks(self@.piece, self@.color, xside, k as int, dr as int, dc as int),
    {
        match ray_scan(&self.piece, k, dr, dc) {
            Some(y) => {
                let first_step = ((k / 8) as i32 + dr) * 8 + ((k % 8) as i32 + dc);
                self.color[y] == xside && (self.piece[y] == piece::QUEEN || self.piece[y]
                    == piece::ROOK || (self.piece[y] == piece::KING && y as i32 == first_step))
            },
            None => false,
        }
    }

    /// Classify the first piece on a bishop line from `k`.
    fn diag_hit(&self, current_side: usize, xside: usize, k: usize, dr: i32, dc: i32) -> (r: bool)
        requires
            k < 64,
            -1 <= dr <= 1,
            -1 <= dc <= 1,
            dr != 0,
            dc != 0,
        ensures
            r == diag_attacks(self@.piece, self@.color, current_side, xside, k as int, dr as int, dc as int),
    {
        match ray_scan(&self.piece, k, dr, dc) {
            Some(y) => {
                let first_step = ((k / 8) as i32 + dr) * 8 + ((k % 8) as i32 + dc);
                let adjacent = y as i32 == first_step;
                self.color[y] == xside && (self.piece[y] == piece::QUEEN || self.piece[y]
                    == piece::BISHOP || (adjacent && self.piece[y] == piece::KING) || (adjacent
                    && self.piece[y] == piece::PAWN && (if current_side == color::WHITE {
                    dr == -1
                } else {
                    dr == 1
                })))
            },
            None => false,
        }
    }

    /// Is `current_side`'s king attacked?
    pub fn is_in_check(&self, current_side: usize) -> (r: bool)
        requires
            current_side == color::WHITE || current_side == color::BLACK,
        ensures
            r == spec_in_check(self@.piece, self@.color, current_side),
    {
        let mut k1: i16 = 0;
        let mut k: usize = 0;
        let mut found = false;
        while k < 64 && !found
            invariant
                k <= 64,
                0 <= k1 < 64,
                !found ==> king_from(self@.piece, self@.color, current_side, 0) == king_from(
                    self@.piece,
                    self@.color,
                    current_side,
                    k as int,
                ),
                found ==> k1 as int == king_from(self@.piece, self@.color, current_side, 0),
            decreases 64 - k,
        {
            k1 = k as i16;
            if self.piece[k] == piece::KING && self.color[k] == current_side {
                found = true;
                proof {
                    assert(king_from(self@.piece, self@.color, current_side, k as int)
                        == k as int);
                }
                k = k + 1;
            } else {
                k = k + 1;
            }
        }
        if !found {
            k1 = 63;
        }
        assert(k1 as int == spec_king_sq(self@.piece, self@.color, current_side));
        self.is_attacked(current_side, k1)
    }
}

} // verus!
