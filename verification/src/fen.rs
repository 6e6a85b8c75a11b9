//! Reading and writing the position as six-field board notation.
//!
//! The printer is specified byte for byte by `spec_fen_bytes`.  The
//! loader parses the text, rebuilds the position, and accepts the text
//! only if printing the rebuilt position reproduces the trimmed input
//! exactly — so round-tripping is a postcondition of `set_fen` — and it
//! is proved complete: every text that is the canonical print of a
//! well-formed position is accepted, because folding a printed field
//! back over the loader's steps provably rebuilds what was printed.
//! The recomputed hash always agrees with a fresh scan because both
//! come from the same function of the state.

use vstd::prelude::*;
use vstd::string::StringSliceAdditionalSpecFns;
use crate::board::{placement_ok, wf, BoardView, Sboard};
use crate::color;
use crate::moves;
use crate::piece;
use crate::square;
use crate::text;
use crate::zobrist;

verus! {

/// ASCII letter of an occupied square.
pub open spec fn spec_piece_byte(p: usize, c: usize) -> u8 {
    if p == piece::KING {
        if c == color::WHITE { 75u8 } else { 107u8 }
    } else if p == piece::QUEEN {
        if c == color::WHITE { 81u8 } else { 113u8 }
    } else if p == piece::ROOK {
        if c == color::WHITE { 82u8 } else { 114u8 }
    } else if p == piece::BISHOP {
        if c == color::WHITE { 66u8 } else { 98u8 }
    } else if p == piece::KNIGHT {
        if c == color::WHITE { 78u8 } else { 110u8 }
    } else {
        if c == color::WHITE { 80u8 } else { 112u8 }
    }
}

/// One rank of the placement field from column `c` on, with `empties`
/// empty squares pending: runs of empty squares are emitted as their
/// count, occupied squares as their letter.
pub open spec fn spec_rank_rle(
    p: Seq<usize>,
    cl: Seq<usize>,
    rank: int,
    c: int,
    empties: int,
) -> Seq<u8>
    decreases 8 - c,
{
    if c < 0 || c >= 8 {
        if empties > 0 {
            seq![(48 + empties) as u8]
        } else {
            Seq::empty()
        }
    } else {
        let i = 8 * rank + c;
        if p[i] <= piece::KING {
            (if empties > 0 {
                seq![(48 + empties) as u8]
            } else {
                Seq::empty()
            }) + seq![spec_piece_byte(p[i], cl[i])] + spec_rank_rle(p, cl, rank, c + 1, 0)
        } else {
            spec_rank_rle(p, cl, rank, c + 1, empties + 1)
        }
    }
}

/// The placement field from `rank` down to the bottom rank, ranks
/// separated by a slash.
pub open spec fn spec_placement_bytes(p: Seq<usize>, cl: Seq<usize>, rank: int) -> Seq<u8>
    decreases 8 - rank,
{
    if rank < 0 || rank >= 8 {
        Seq::empty()
    } else {
        spec_rank_rle(p, cl, rank, 0, 0) + (if rank < 7 {
            seq![47u8]
        } else {
            Seq::empty()
        }) + spec_placement_bytes(p, cl, rank + 1)
    }
}

/// The castling field: the letters of the rights held, in the fixed
/// order K, Q, k, q, or a dash when none are left.
pub open spec fn spec_castle_bytes(cr: usize) -> Seq<u8> {
    if cr == 0 {
        seq![45u8]
    } else {
        (if cr & 1 != 0 { seq![75u8] } else { Seq::empty() })
        + (if cr & 2 != 0 { seq![81u8] } else { Seq::empty() })
        + (if cr & 4 != 0 { seq![107u8] } else { Seq::empty() })
        + (if cr & 8 != 0 { seq![113u8] } else { Seq::empty() })
    }
}

/// The en-passant field: the target square's name or a dash.
pub open spec fn spec_ep_bytes(ep: i16) -> Seq<u8> {
    if ep == -1 {
        seq![45u8]
    } else {
        seq![square::spec_file_byte(ep as int), square::spec_rank_byte(ep as int)]
    }
}

/// Decimal digits of a number.
pub open spec fn spec_dec_bytes(n: int) -> Seq<u8>
    decreases n,
{
    if 0 <= n < 10 {
        seq![(48 + n) as u8]
    } else if n >= 10 {
        spec_dec_bytes(n / 10).push((48 + n % 10) as u8)
    } else {
        Seq::empty()
    }
}

/// The whole position text, all six fields space-separated.
pub open spec fn spec_fen_bytes(v: BoardView) -> Seq<u8> {
    spec_placement_bytes(v.piece, v.color, 0) + seq![32u8] + seq![
        if v.side == color::WHITE { 119u8 } else { 98u8 },
    ] + seq![32u8] + spec_castle_bytes(v.castle_rights) + seq![32u8] + spec_ep_bytes(v.en_passant)
        + seq![32u8] + spec_dec_bytes(v.ply_pawn as int) + seq![32u8] + spec_dec_bytes(
        v.ply as int,
    )
}

/// ASCII whitespace as the loader strips it.
pub open spec fn is_ws(b: u8) -> bool {
    b == 32 || b == 9 || b == 10 || b == 13
}

/// The input with leading whitespace stripped.
pub open spec fn spec_trim_front(s: Seq<u8>) -> Seq<u8>
    decreases s.len(),
{
    if s.len() > 0 && is_ws(s[0]) {
        spec_trim_front(s.drop_first())
    } else {
        s
    }
}

/// The input with trailing whitespace stripped.
pub open spec fn spec_trim_back(s: Seq<u8>) -> Seq<u8>
    decreases s.len(),
{
    if s.len() > 0 && is_ws(s.last()) {
        spec_trim_back(s.drop_last())
    } else {
        s
    }
}

/// The input with whitespace stripped at both ends.
pub open spec fn spec_trim(s: Seq<u8>) -> Seq<u8> {
    spec_trim_back(spec_trim_front(s))
}


/// What a loaded square holds before the marker is re-placed: markers
/// print as empty squares, everything else keeps its kind.
pub open spec fn spec_clean_piece(p: Seq<usize>, x: int) -> usize {
    if p[x] <= piece::KING {
        p[x]
    } else {
        square::EMPTY
    }
}

/// The colour a loaded square holds: the piece's colour where one
/// stands, empty elsewhere.
pub open spec fn spec_clean_color(p: Seq<usize>, cl: Seq<usize>, x: int) -> usize {
    if p[x] <= piece::KING {
        cl[x]
    } else {
        square::EMPTY
    }
}

/// The piece kind and colour a placement letter names.
pub open spec fn spec_letter(b: u8) -> Option<(usize, usize)> {
    if b == 112 {
        Some((piece::PAWN, color::BLACK))
    } else if b == 114 {
        Some((piece::ROOK, color::BLACK))
    } else if b == 110 {
        Some((piece::KNIGHT, color::BLACK))
    } else if b == 98 {
        Some((piece::BISHOP, color::BLACK))
    } else if b == 107 {
        Some((piece::KING, color::BLACK))
    } else if b == 113 {
        Some((piece::QUEEN, color::BLACK))
    } else if b == 80 {
        Some((piece::PAWN, color::WHITE))
    } else if b == 82 {
        Some((piece::ROOK, color::WHITE))
    } else if b == 78 {
        Some((piece::KNIGHT, color::WHITE))
    } else if b == 66 {
        Some((piece::BISHOP, color::WHITE))
    } else if b == 75 {
        Some((piece::KING, color::WHITE))
    } else if b == 81 {
        Some((piece::QUEEN, color::WHITE))
    } else {
        None
    }
}

/// One byte of the placement field applied to the loader's state: the
/// number of cells filled so far and the two boards being built.
pub open spec fn spec_cell_step(
    st: (int, Seq<usize>, Seq<usize>),
    b: u8,
) -> Option<(int, Seq<usize>, Seq<usize>)> {
    if b == 47 {
        Some(st)
    } else if 49 <= b && b <= 56 {
        if st.0 + (b - 48) <= 64 {
            Some((st.0 + (b - 48), st.1, st.2))
        } else {
            None
        }
    } else {
        match spec_letter(b) {
            Option::Some(pc) => if 0 <= st.0 && st.0 < 64 {
                Some((st.0 + 1, st.1.update(st.0, pc.0), st.2.update(st.0, pc.1)))
            } else {
                None
            },
            Option::None => None,
        }
    }
}

/// The placement field folded byte by byte over the loader's state.
pub open spec fn spec_cells_fold(
    s: Seq<u8>,
    st: (int, Seq<usize>, Seq<usize>),
) -> Option<(int, Seq<usize>, Seq<usize>)>
    decreases s.len(),
{
    if s.len() == 0 {
        Some(st)
    } else {
        match spec_cell_step(st, s[0]) {
            Option::Some(st2) => spec_cells_fold(s.drop_first(), st2),
            Option::None => None,
        }
    }
}

proof fn lemma_cells_fold_append(a: Seq<u8>, c: Seq<u8>, st: (int, Seq<usize>, Seq<usize>))
    ensures
        spec_cells_fold(a + c, st) == (match spec_cells_fold(a, st) {
            Option::Some(st2) => spec_cells_fold(c, st2),
            Option::None => Option::<(int, Seq<usize>, Seq<usize>)>::None,
        }),
    decreases a.len(),
{
    if a.len() == 0 {
        assert(a + c =~= c);
    } else {
        assert((a + c)[0] == a[0]);
        assert((a + c).drop_first() =~= a.drop_first() + c);
        match spec_cell_step(st, a[0]) {
            Option::Some(st2) => {
                lemma_cells_fold_append(a.drop_first(), c, st2);
            },
            Option::None => {},
        }
    }
}

proof fn lemma_cells_fold_prefix(s: Seq<u8>, m: int, st: (int, Seq<usize>, Seq<usize>))
    requires
        0 <= m <= s.len(),
        spec_cells_fold(s, st) is Some,
    ensures
        spec_cells_fold(s.take(m), st) is Some,
{
    assert(s =~= s.take(m) + s.skip(m));
    lemma_cells_fold_append(s.take(m), s.skip(m), st);
}

/// Folding one rank of the printed placement from column `c` with
/// `empties` pending fills exactly the rest of the rank's cells.
proof fn lemma_rle_fold(
    p: Seq<usize>,
    cl: Seq<usize>,
    rank: int,
    c: int,
    e: int,
    st: (int, Seq<usize>, Seq<usize>),
)
    requires
        placement_ok(p, cl),
        0 <= rank < 8,
        0 <= c <= 8,
        0 <= e <= c,
        st.0 == 8 * rank + c - e,
        st.1.len() == 64,
        st.2.len() == 64,
        forall|x: int| 8 * rank + c - e <= x < 8 * rank + c ==> #[trigger] p[x] > piece::KING,
        forall|x: int| st.0 <= x < 64 ==> #[trigger] st.1[x] == square::EMPTY,
        forall|x: int| st.0 <= x < 64 ==> #[trigger] st.2[x] == square::EMPTY,
    ensures
        spec_cells_fold(spec_rank_rle(p, cl, rank, c, e), st) matches Some(st2) && ({
            &&& st2.0 == 8 * rank + 8
            &&& st2.1.len() == 64
            &&& st2.2.len() == 64
            &&& forall|x: int| 0 <= x < 64 ==> #[trigger] st2.1[x] == (if st.0 <= x < 8 * rank
                + 8 {
                spec_clean_piece(p, x)
            } else {
                st.1[x]
            })
            &&& forall|x: int| 0 <= x < 64 ==> #[trigger] st2.2[x] == (if st.0 <= x < 8 * rank
                + 8 {
                spec_clean_color(p, cl, x)
            } else {
                st.2[x]
            })
        }),
    decreases 8 - c,
{
    reveal_with_fuel(spec_cells_fold, 3);
    let s = spec_rank_rle(p, cl, rank, c, e);
    if c >= 8 {
        if e > 0 {
            let b0 = (48 + e) as u8;
            assert(s =~= seq![b0]);
            assert(49 <= b0 && b0 <= 56);
            assert(st.0 + (b0 - 48) == 8 * rank + 8);
            assert(s.drop_first() =~= Seq::<u8>::empty());
        } else {
            assert(s =~= Seq::<u8>::empty());
        }
    } else {
        let i = 8 * rank + c;
        if p[i] <= piece::KING {
            let s1: Seq<u8> = if e > 0 {
                seq![(48 + e) as u8]
            } else {
                Seq::empty()
            };
            let s2: Seq<u8> = seq![spec_piece_byte(p[i], cl[i])];
            let rest = spec_rank_rle(p, cl, rank, c + 1, 0);
            assert(s == s1 + s2 + rest);
            lemma_cells_fold_append(s1 + s2, rest, st);
            lemma_cells_fold_append(s1, s2, st);
            let st1 = (i, st.1, st.2);
            if e > 0 {
                let b0 = (48 + e) as u8;
                assert(49 <= b0 && b0 <= 56);
                assert(s1.drop_first() =~= Seq::<u8>::empty());
                assert(spec_cells_fold(s1, st) == Some(st1));
            } else {
                assert(spec_cells_fold(s1, st) == Some(st1));
            }
            assert(spec_letter(spec_piece_byte(p[i], cl[i])) == Some((p[i], cl[i])));
            let st2 = (i + 1, st.1.update(i, p[i]), st.2.update(i, cl[i]));
            assert(s2.drop_first() =~= Seq::<u8>::empty());
            assert(spec_cells_fold(s2, st1) == Some(st2));
            lemma_rle_fold(p, cl, rank, c + 1, 0, st2);
        } else {
            assert(s == spec_rank_rle(p, cl, rank, c + 1, e + 1));
            lemma_rle_fold(p, cl, rank, c + 1, e + 1, st);
        }
    }
}

/// Folding the whole printed placement from `rank` down fills every
/// remaining cell with the position's own content, markers cleared.
proof fn lemma_placement_fold(
    p: Seq<usize>,
    cl: Seq<usize>,
    rank: int,
    st: (int, Seq<usize>, Seq<usize>),
)
    requires
        placement_ok(p, cl),
        0 <= rank <= 8,
        st.0 == 8 * rank,
        st.1.len() == 64,
        st.2.len() == 64,
        forall|x: int| st.0 <= x < 64 ==> #[trigger] st.1[x] == square::EMPTY,
        forall|x: int| st.0 <= x < 64 ==> #[trigger] st.2[x] == square::EMPTY,
    ensures
        spec_cells_fold(spec_placement_bytes(p, cl, rank), st) matches Some(st2) && ({
            &&& st2.0 == 64
            &&& st2.1.len() == 64
            &&& st2.2.len() == 64
            &&& forall|x: int| 0 <= x < 64 ==> #[trigger] st2.1[x] == (if st.0 <= x {
                spec_clean_piece(p, x)
            } else {
                st.1[x]
            })
            &&& forall|x: int| 0 <= x < 64 ==> #[trigger] st2.2[x] == (if st.0 <= x {
                spec_clean_color(p, cl, x)
            } else {
                st.2[x]
            })
        }),
    decreases 8 - rank,
{
    reveal_with_fuel(spec_cells_fold, 3);
    if rank >= 8 {
        assert(spec_placement_bytes(p, cl, rank) =~= Seq::<u8>::empty());
    } else {
        let s1 = spec_rank_rle(p, cl, rank, 0, 0);
        let s2: Seq<u8> = if rank < 7 {
            seq![47u8]
        } else {
            Seq::empty()
        };
        let rest = spec_placement_bytes(p, cl, rank + 1);
        assert(spec_placement_bytes(p, cl, rank) == s1 + s2 + rest);
        lemma_cells_fold_append(s1 + s2, rest, st);
        lemma_cells_fold_append(s1, s2, st);
        lemma_rle_fold(p, cl, rank, 0, 0, st);
        let st1 = spec_cells_fold(s1, st)->Some_0;
        if rank < 7 {
            assert(s2.drop_first() =~= Seq::<u8>::empty());
            assert(spec_cells_fold(s2, st1) == Some(st1));
        } else {
            assert(spec_cells_fold(s2, st1) == Some(st1));
        }
        lemma_placement_fold(p, cl, rank + 1, st1);
    }
}


/// One castling letter ORed into the rights being rebuilt.
pub open spec fn spec_castle_step(cr: usize, b: u8) -> Option<usize> {
    if b == 75 {
        Some(cr | 1)
    } else if b == 81 {
        Some(cr | 2)
    } else if b == 107 {
        Some(cr | 4)
    } else if b == 113 {
        Some(cr | 8)
    } else {
        None
    }
}

/// The castling field folded letter by letter.
pub open spec fn spec_castle_fold(s: Seq<u8>, cr: usize) -> Option<usize>
    decreases s.len(),
{
    if s.len() == 0 {
        Some(cr)
    } else {
        match spec_castle_step(cr, s[0]) {
            Option::Some(cr2) => spec_castle_fold(s.drop_first(), cr2),
            Option::None => None,
        }
    }
}

proof fn lemma_castle_fold_append(a: Seq<u8>, c: Seq<u8>, cr: usize)
    ensures
        spec_castle_fold(a + c, cr) == (match spec_castle_fold(a, cr) {
            Option::Some(cr2) => spec_castle_fold(c, cr2),
            Option::None => Option::<usize>::None,
        }),
    decreases a.len(),
{
    if a.len() == 0 {
        assert(a + c =~= c);
    } else {
        assert((a + c)[0] == a[0]);
        assert((a + c).drop_first() =~= a.drop_first() + c);
        match spec_castle_step(cr, a[0]) {
            Option::Some(cr2) => {
                lemma_castle_fold_append(a.drop_first(), c, cr2);
            },
            Option::None => {},
        }
    }
}

/// Folding the printed letters of a nonzero rights nibble rebuilds it,
/// and the field holds only the four letters.
proof fn lemma_castle_fold(x: usize)
    requires
        1 <= x <= 15,
    ensures
        spec_castle_fold(spec_castle_bytes(x), 0) == Some(x),
        spec_castle_bytes(x).len() >= 1,
        forall|i: int| 0 <= i < spec_castle_bytes(x).len() ==> {
            ||| #[trigger] spec_castle_bytes(x)[i] == 75
            ||| spec_castle_bytes(x)[i] == 81
            ||| spec_castle_bytes(x)[i] == 107
            ||| spec_castle_bytes(x)[i] == 113
        },
{
    reveal_with_fuel(spec_castle_fold, 3);
    let c1: Seq<u8> = if x & 1 != 0 { seq![75u8] } else { Seq::empty() };
    let c2: Seq<u8> = if x & 2 != 0 { seq![81u8] } else { Seq::empty() };
    let c3: Seq<u8> = if x & 4 != 0 { seq![107u8] } else { Seq::empty() };
    let c4: Seq<u8> = if x & 8 != 0 { seq![113u8] } else { Seq::empty() };
    assert(spec_castle_bytes(x) == c1 + c2 + c3 + c4);
    lemma_castle_fold_append(c1 + c2 + c3, c4, 0);
    lemma_castle_fold_append(c1 + c2, c3, 0);
    lemma_castle_fold_append(c1, c2, 0);
    let a1: usize = if x & 1 != 0 { 0usize | 1 } else { 0usize };
    let a2: usize = if x & 2 != 0 { a1 | 2 } else { a1 };
    let a3: usize = if x & 4 != 0 { a2 | 4 } else { a2 };
    let a4: usize = if x & 8 != 0 { a3 | 8 } else { a3 };
    assert(c1.len() > 0 ==> c1.drop_first() =~= Seq::<u8>::empty());
    assert(c2.len() > 0 ==> c2.drop_first() =~= Seq::<u8>::empty());
    assert(c3.len() > 0 ==> c3.drop_first() =~= Seq::<u8>::empty());
    assert(c4.len() > 0 ==> c4.drop_first() =~= Seq::<u8>::empty());
    assert(spec_castle_fold(c1, 0) == Some(a1));
    assert(spec_castle_fold(c2, a1) == Some(a2));
    assert(spec_castle_fold(c3, a2) == Some(a3));
    assert(spec_castle_fold(c4, a3) == Some(a4));
    assert({
        let b1: usize = if x & 1 != 0 { 0usize | 1 } else { 0usize };
        let b2: usize = if x & 2 != 0 { b1 | 2 } else { b1 };
        let b3: usize = if x & 4 != 0 { b2 | 4 } else { b2 };
        let b4: usize = if x & 8 != 0 { b3 | 8 } else { b3 };
        (1 <= x && x <= 15) ==> b4 == x
    }) by (bit_vector);
    assert(x & 1 != 0 || x & 2 != 0 || x & 4 != 0 || x & 8 != 0) by (bit_vector)
        requires
            1 <= x <= 15,
    ;
}

/// One decimal digit appended to the value being rebuilt, rejecting a
/// value that would no longer fit the machine word.
pub open spec fn spec_dec_step(acc: int, b: u8) -> Option<int> {
    if 48 <= b && b <= 57 {
        if acc <= (usize::MAX - (b - 48)) / 10 {
            Some(acc * 10 + (b - 48))
        } else {
            None
        }
    } else {
        None
    }
}

/// A clock field folded digit by digit.
pub open spec fn spec_dec_fold(s: Seq<u8>, acc: int) -> Option<int>
    decreases s.len(),
{
    if s.len() == 0 {
        Some(acc)
    } else {
        match spec_dec_step(acc, s[0]) {
            Option::Some(acc2) => spec_dec_fold(s.drop_first(), acc2),
            Option::None => None,
        }
    }
}

proof fn lemma_dec_fold_append(a: Seq<u8>, c: Seq<u8>, acc: int)
    ensures
        spec_dec_fold(a + c, acc) == (match spec_dec_fold(a, acc) {
            Option::Some(acc2) => spec_dec_fold(c, acc2),
            Option::None => Option::<int>::None,
        }),
    decreases a.len(),
{
    if a.len() == 0 {
        assert(a + c =~= c);
    } else {
        assert((a + c)[0] == a[0]);
        assert((a + c).drop_first() =~= a.drop_first() + c);
        match spec_dec_step(acc, a[0]) {
            Option::Some(acc2) => {
                lemma_dec_fold_append(a.drop_first(), c, acc2);
            },
            Option::None => {},
        }
    }
}

/// Folding the printed decimal form of a machine-word value rebuilds
/// it, and the field holds only digits.
proof fn lemma_dec_fold(n: int)
    requires
        0 <= n <= usize::MAX,
    ensures
        spec_dec_fold(spec_dec_bytes(n), 0) == Some(n),
        spec_dec_bytes(n).len() >= 1,
        forall|i: int| 0 <= i < spec_dec_bytes(n).len() ==> 48 <= #[trigger] spec_dec_bytes(
            n,
        )[i] <= 57,
    decreases n,
{
    reveal_with_fuel(spec_dec_fold, 3);
    if n < 10 {
        let b0 = (48 + n) as u8;
        assert(spec_dec_bytes(n) =~= seq![b0]);
        assert(spec_dec_bytes(n).drop_first() =~= Seq::<u8>::empty());
        assert(0 <= (usize::MAX - (b0 - 48)) / 10);
    } else {
        let q = n / 10;
        let d = n % 10;
        let db = (48 + d) as u8;
        lemma_dec_fold(q);
        assert(spec_dec_bytes(n) == spec_dec_bytes(q).push(db));
        assert(spec_dec_bytes(q).push(db) =~= spec_dec_bytes(q) + seq![db]);
        lemma_dec_fold_append(spec_dec_bytes(q), seq![db], 0);
        assert(seq![db].drop_first() =~= Seq::<u8>::empty());
        assert(10 * q + d == n);
        assert(10 * q <= usize::MAX - d);
        assert(q <= (usize::MAX - d) / 10) by {
            let m = usize::MAX - d;
            assert(m == 10 * (m / 10) + m % 10);
            if q > m / 10 {
                assert(10 * q >= 10 * (m / 10) + 10);
                assert(false);
            }
        }
        assert(db - 48 == d);
        assert(spec_dec_fold(seq![db], q) == Some(n));
    }
}


/// Every byte of a printed rank is a slash, a digit run, or a piece
/// letter — in particular none is a space.
proof fn lemma_rank_rle_min(p: Seq<usize>, cl: Seq<usize>, rank: int, c: int, empties: int)
    requires
        0 <= empties,
        c <= 8,
        empties + (8 - c) <= 8,
    ensures
        forall|i: int| 0 <= i < spec_rank_rle(p, cl, rank, c, empties).len()
            ==> #[trigger] spec_rank_rle(p, cl, rank, c, empties)[i] >= 47,
    decreases 8 - c,
{
    if c < 0 || c >= 8 {
        assert forall|i: int| 0 <= i < spec_rank_rle(p, cl, rank, c, empties).len()
            implies #[trigger] spec_rank_rle(p, cl, rank, c, empties)[i] >= 47 by {
            assert(empties <= 8);
        }
    } else {
        lemma_rank_rle_min(p, cl, rank, c + 1, 0);
        lemma_rank_rle_min(p, cl, rank, c + 1, empties + 1);
        assert forall|i: int| 0 <= i < spec_rank_rle(p, cl, rank, c, empties).len()
            implies #[trigger] spec_rank_rle(p, cl, rank, c, empties)[i] >= 47 by {
            assert(empties <= 7);
            if p[8 * rank + c] <= piece::KING {
                let s1 = if empties > 0 {
                    seq![(48 + empties) as u8]
                } else {
                    Seq::<u8>::empty()
                };
                let s2 = seq![spec_piece_byte(p[8 * rank + c], cl[8 * rank + c])];
                let rest = spec_rank_rle(p, cl, rank, c + 1, 0);
                assert(spec_rank_rle(p, cl, rank, c, empties) == s1 + s2 + rest);
                assert(spec_piece_byte(p[8 * rank + c], cl[8 * rank + c]) >= 47);
                if i < s1.len() {
                    assert((s1 + s2 + rest)[i] == s1[i]);
                } else if i < s1.len() + 1 {
                    assert((s1 + s2 + rest)[i] == s2[i - s1.len()]);
                } else {
                    assert((s1 + s2 + rest)[i] == rest[i - s1.len() - 1]);
                    assert(rest[i - s1.len() - 1] >= 47);
                }
            } else {
                assert(spec_rank_rle(p, cl, rank, c, empties) == spec_rank_rle(
                    p,
                    cl,
                    rank,
                    c + 1,
                    empties + 1,
                ));
            }
        }
    }
}

/// Every byte of the printed placement field is at least a slash — so
/// never the field-separating space.
proof fn lemma_placement_min(p: Seq<usize>, cl: Seq<usize>, rank: int)
    ensures
        forall|i: int| 0 <= i < spec_placement_bytes(p, cl, rank).len()
            ==> #[trigger] spec_placement_bytes(p, cl, rank)[i] >= 47,
    decreases 8 - rank,
{
    if rank < 0 || rank >= 8 {
    } else {
        lemma_rank_rle_min(p, cl, rank, 0, 0);
        lemma_placement_min(p, cl, rank + 1);
        assert forall|i: int| 0 <= i < spec_placement_bytes(p, cl, rank).len()
            implies #[trigger] spec_placement_bytes(p, cl, rank)[i] >= 47 by {
            let s1 = spec_rank_rle(p, cl, rank, 0, 0);
            let s2 = if rank < 7 {
                seq![47u8]
            } else {
                Seq::<u8>::empty()
            };
            let rest = spec_placement_bytes(p, cl, rank + 1);
            assert(spec_placement_bytes(p, cl, rank) == s1 + s2 + rest);
            if i < s1.len() {
                assert((s1 + s2 + rest)[i] == s1[i]);
                assert(s1[i] >= 47);
            } else if i < s1.len() + s2.len() {
                assert((s1 + s2 + rest)[i] == s2[i - s1.len()]);
            } else {
                assert((s1 + s2 + rest)[i] == rest[i - s1.len() - s2.len()]);
                assert(rest[i - s1.len() - s2.len()] >= 47);
            }
        }
    }
}

/// While a placement byte other than a space is in front of the loader,
/// it is still strictly inside the printed placement field.
proof fn lemma_in_placement(gv: BoardView, tb: Seq<u8>, m: int)
    requires
        wf(gv),
        spec_fen_bytes(gv) == tb,
        0 <= m <= spec_placement_bytes(gv.piece, gv.color, 0).len(),
        m < tb.len(),
        tb[m] != 32,
    ensures
        m < spec_placement_bytes(gv.piece, gv.color, 0).len(),
{
    let gp = spec_placement_bytes(gv.piece, gv.color, 0);
    if m == gp.len() {
        assert(tb[m] == 32);
    }
}

proof fn lemma_dec_fold_prefix(s: Seq<u8>, m: int, acc: int)
    requires
        0 <= m <= s.len(),
        spec_dec_fold(s, acc) is Some,
    ensures
        spec_dec_fold(s.take(m), acc) is Some,
{
    assert(s =~= s.take(m) + s.skip(m));
    lemma_dec_fold_append(s.take(m), s.skip(m), acc);
}

/// Append the decimal digits of `n`.
fn push_dec(out: &mut Vec<u8>, n: usize)
    ensures
        final(out)@ == old(out)@ + spec_dec_bytes(n as int),
    decreases n,
{
    if n >= 10 {
        push_dec(out, n / 10);
    }
    out.push(48 + (n % 10) as u8);
    proof {
        assert(final(out)@ =~= old(out)@ + spec_dec_bytes(n as int));
    }
}

impl Sboard {
    /// The placement field of the position text.
    fn placement_field(&self) -> (r: Vec<u8>)
        requires
            placement_ok(self@.piece, self@.color),
        ensures
            r@ == spec_placement_bytes(self@.piece, self@.color, 0),
    {
        let mut out: Vec<u8> = Vec::new();
        let ghost p = self@.piece;
        let ghost cl = self@.color;

        let mut rank: usize = 0;
        while rank < 8
            invariant
                placement_ok(p, cl),
                p == self@.piece,
                cl == self@.color,
                rank <= 8,
                spec_placement_bytes(p, cl, 0) == out@ + spec_placement_bytes(p, cl, rank as int),
            decreases 8 - rank,
        {
            let ghost rank_snap = out@;
            let mut empties: usize = 0;
            let mut c: usize = 0;
            while c < 8
                invariant
                    placement_ok(p, cl),
                    p == self@.piece,
                    cl == self@.color,
                    rank < 8,
                    c <= 8,
                    empties <= c,
                    rank_snap.is_prefix_of(out@),
                    spec_rank_rle(p, cl, rank as int, 0, 0) == out@.skip(rank_snap.len() as int)
                        + spec_rank_rle(p, cl, rank as int, c as int, empties as int),
                decreases 8 - c,
            {
                let i = 8 * rank + c;
                let ghost mid0 = out@.skip(rank_snap.len() as int);
                if self.piece[i] <= piece::KING {
                    if empties != 0 {
                        out.push(48 + empties as u8);
                    }
                    let pb: u8 = if self.piece[i] == piece::KING {
                        if self.color[i] == color::WHITE { 75 } else { 107 }
                    } else if self.piece[i] == piece::QUEEN {
                        if self.color[i] == color::WHITE { 81 } else { 113 }
                    } else if self.piece[i] == piece::ROOK {
                        if self.color[i] == color::WHITE { 82 } else { 114 }
                    } else if self.piece[i] == piece::BISHOP {
                        if self.color[i] == color::WHITE { 66 } else { 98 }
                    } else if self.piece[i] == piece::KNIGHT {
                        if self.color[i] == color::WHITE { 78 } else { 110 }
                    } else {
                        if self.color[i] == color::WHITE { 80 } else { 112 }
                    };
                    out.push(pb);
                    proof {
                        assert(pb == spec_piece_byte(p[i as int], cl[i as int]));
                        let emitted = (if empties > 0 {
                            seq![(48 + empties as int) as u8]
                        } else {
                            Seq::<u8>::empty()
                        }) + seq![pb];
                        assert(out@.skip(rank_snap.len() as int) =~= mid0 + emitted);
                        assert(mid0 + (emitted + spec_rank_rle(p, cl, rank as int, c + 1, 0))
                            =~= (mid0 + emitted) + spec_rank_rle(p, cl, rank as int, c + 1, 0));
                    }
                    empties = 0;
                } else {
                    empties = empties + 1;
                }
                c = c + 1;
            }
            let ghost mid1 = out@.skip(rank_snap.len() as int);
            if empties != 0 {
                out.push(48 + empties as u8);
            }
            proof {
                assert(out@.skip(rank_snap.len() as int) =~= mid1 + (if empties > 0 {
                    seq![(48 + empties as int) as u8]
                } else {
                    Seq::<u8>::empty()
                }));
                assert(out@.skip(rank_snap.len() as int) =~= spec_rank_rle(
                    p,
                    cl,
                    rank as int,
                    0,
                    0,
                ));
            }
            let ghost mid2 = out@;
            if rank < 7 {
                out.push(47);
            }
            proof {
                assert(mid2 =~= rank_snap + spec_rank_rle(p, cl, rank as int, 0, 0));
                assert(out@ =~= rank_snap + (spec_rank_rle(p, cl, rank as int, 0, 0) + (
                if rank < 7 {
                    seq![47u8]
                } else {
                    Seq::<u8>::empty()
                })));
                assert(spec_placement_bytes(p, cl, 0) == out@ + spec_placement_bytes(
                    p,
                    cl,
                    rank + 1,
                )) by {
                    assert(rank_snap + ((spec_rank_rle(p, cl, rank as int, 0, 0) + (
                    if rank < 7 {
                        seq![47u8]
                    } else {
                        Seq::<u8>::empty()
                    })) + spec_placement_bytes(p, cl, rank + 1)) =~= out@
                        + spec_placement_bytes(p, cl, rank + 1));
                }
            }
            rank = rank + 1;
        }
        proof {
            assert(out@ =~= spec_placement_bytes(p, cl, 0));
        }
        out
    }

    /// The position text as raw ASCII bytes.
    pub fn fen_bytes(&self) -> (r: Vec<u8>)
        requires
            placement_ok(self@.piece, self@.color),
            self@.side == color::WHITE || self@.side == color::BLACK,
            -1 <= self@.en_passant < 64,
        ensures
            r@ == spec_fen_bytes(self@),
    {
        let out: Vec<u8> = self.placement_field();
        self.scalar_fields(out)
    }

    /// The five scalar fields appended after the placement field.
    #[verifier::rlimit(100)]
    fn scalar_fields(&self, text: Vec<u8>) -> (r: Vec<u8>)
        requires
            self@.side == color::WHITE || self@.side == color::BLACK,
            -1 <= self@.en_passant < 64,
            text@ == spec_placement_bytes(self@.piece, self@.color, 0),
        ensures
            r@ == spec_fen_bytes(self@),
    {
        let ghost p = self@.piece;
        let ghost cl = self@.color;
        let mut out: Vec<u8> = text;
        out.push(32);
        if self.side == color::WHITE {
            out.push(119);
        } else {
            out.push(98);
        }
        let ghost part2 = out@;
        proof {
            assert(part2 =~= spec_placement_bytes(p, cl, 0) + seq![32u8] + seq![
                if self@.side == color::WHITE { 119u8 } else { 98u8 },
            ]);
        }
        out.push(32);
        if self.castle_rights == 0 {
            out.push(45);
        } else {
            if self.castle_rights & 1 != 0 {
                out.push(75);
            }
            if self.castle_rights & 2 != 0 {
                out.push(81);
            }
            if self.castle_rights & 4 != 0 {
                out.push(107);
            }
            if self.castle_rights & 8 != 0 {
                out.push(113);
            }
        }
        let ghost part3 = out@;
        proof {
            assert(part3 =~= part2 + seq![32u8] + spec_castle_bytes(self@.castle_rights));
        }
        out.push(32);
        if self.en_passant == -1 {
            out.push(45);
        } else {
            let epu = self.en_passant as usize;
            out.push(97 + (epu % 8) as u8);
            out.push(56 - (epu / 8) as u8);
        }
        let ghost part4 = out@;
        proof {
            assert(part4 =~= part3 + seq![32u8] + spec_ep_bytes(self@.en_passant));
        }
        out.push(32);
        push_dec(&mut out, self.ply_pawn);
        let ghost part5 = out@;
        proof {
            assert(part5 =~= part4 + seq![32u8] + spec_dec_bytes(self@.ply_pawn as int));
        }
        out.push(32);
        push_dec(&mut out, self.ply);
        proof {
            assert(out@ =~= spec_fen_bytes(self@));
        }
        out
    }

    /// The current position in six-field board notation.
    pub fn get_fen(&self) -> (r: String)
        requires
            wf(self@),
        ensures
            r@ == Seq::new(spec_fen_bytes(self@).len(), |i: int| spec_fen_bytes(self@)[i] as char),
    {
        let bytes = self.fen_bytes();
        proof {
            lemma_fen_bytes_ascii(self@);
        }
        text::ascii_to_string(bytes)
    }
}

/// Every byte the printer emits is ASCII.
proof fn lemma_rank_rle_ascii(p: Seq<usize>, cl: Seq<usize>, rank: int, c: int, empties: int)
    requires
        0 <= empties,
        c <= 8,
        empties + (8 - c) <= 8,
    ensures
        forall|i: int| 0 <= i < spec_rank_rle(p, cl, rank, c, empties).len()
            ==> #[trigger] spec_rank_rle(p, cl, rank, c, empties)[i] < 128,
    decreases 8 - c,
{
    if c < 0 || c >= 8 {
        assert forall|i: int| 0 <= i < spec_rank_rle(p, cl, rank, c, empties).len()
            implies #[trigger] spec_rank_rle(p, cl, rank, c, empties)[i] < 128 by {
            assert(empties <= 8);
        }
    } else {
        lemma_rank_rle_ascii(p, cl, rank, c + 1, 0);
        lemma_rank_rle_ascii(p, cl, rank, c + 1, empties + 1);
        assert forall|i: int| 0 <= i < spec_rank_rle(p, cl, rank, c, empties).len()
            implies #[trigger] spec_rank_rle(p, cl, rank, c, empties)[i] < 128 by {
            assert(empties <= 7);
            if p[8 * rank + c] <= piece::KING {
                let s1 = if empties > 0 {
                    seq![(48 + empties) as u8]
                } else {
                    Seq::<u8>::empty()
                };
                let s2 = seq![spec_piece_byte(p[8 * rank + c], cl[8 * rank + c])];
                let rest = spec_rank_rle(p, cl, rank, c + 1, 0);
                assert(spec_rank_rle(p, cl, rank, c, empties) == s1 + s2 + rest);
                assert(spec_piece_byte(p[8 * rank + c], cl[8 * rank + c]) < 128);
                if i < s1.len() {
                    assert((s1 + s2 + rest)[i] == s1[i]);
                } else if i < s1.len() + 1 {
                    assert((s1 + s2 + rest)[i] == s2[i - s1.len()]);
                } else {
                    assert((s1 + s2 + rest)[i] == rest[i - s1.len() - 1]);
                    assert(rest[i - s1.len() - 1] < 128);
                }
            } else {
                assert(spec_rank_rle(p, cl, rank, c, empties) == spec_rank_rle(
                    p,
                    cl,
                    rank,
                    c + 1,
                    empties + 1,
                ));
            }
        }
    }
}

proof fn lemma_placement_ascii(p: Seq<usize>, cl: Seq<usize>, rank: int)
    ensures
        forall|i: int| 0 <= i < spec_placement_bytes(p, cl, rank).len()
            ==> #[trigger] spec_placement_bytes(p, cl, rank)[i] < 128,
    decreases 8 - rank,
{
    if rank < 0 || rank >= 8 {
    } else {
        lemma_rank_rle_ascii(p, cl, rank, 0, 0);
        lemma_placement_ascii(p, cl, rank + 1);
        assert forall|i: int| 0 <= i < spec_placement_bytes(p, cl, rank).len()
            implies #[trigger] spec_placement_bytes(p, cl, rank)[i] < 128 by {
            let s1 = spec_rank_rle(p, cl, rank, 0, 0);
            let s2 = if rank < 7 {
                seq![47u8]
            } else {
                Seq::<u8>::empty()
            };
            let rest = spec_placement_bytes(p, cl, rank + 1);
            assert(spec_placement_bytes(p, cl, rank) == s1 + s2 + rest);
            if i < s1.len() {
                assert((s1 + s2 + rest)[i] == s1[i]);
                assert(s1[i] < 128);
            } else if i < s1.len() + s2.len() {
                assert((s1 + s2 + rest)[i] == s2[i - s1.len()]);
            } else {
                assert((s1 + s2 + rest)[i] == rest[i - s1.len() - s2.len()]);
                assert(rest[i - s1.len() - s2.len()] < 128);
            }
        }
    }
}

proof fn lemma_dec_ascii(n: int)
    ensures
        forall|i: int| 0 <= i < spec_dec_bytes(n).len() ==> #[trigger] spec_dec_bytes(n)[i] < 128,
    decreases n,
{
    if n >= 10 {
        lemma_dec_ascii(n / 10);
    }
    assert forall|i: int| 0 <= i < spec_dec_bytes(n).len()
        implies #[trigger] spec_dec_bytes(n)[i] < 128 by {
        if 0 <= n < 10 {
            assert(spec_dec_bytes(n) == seq![(48 + n) as u8]);
            assert(spec_dec_bytes(n)[i] == (48 + n) as u8);
        } else if n >= 10 {
            assert(spec_dec_bytes(n) == spec_dec_bytes(n / 10).push((48 + n % 10) as u8));
            if i < spec_dec_bytes(n / 10).len() {
                assert(spec_dec_bytes(n / 10)[i] < 128);
            } else {
                assert(spec_dec_bytes(n)[i] == (48 + n % 10) as u8);
            }
        }
    }
}

proof fn lemma_fen_bytes_ascii(v: BoardView)
    requires
        -1 <= v.en_passant < 64,
    ensures
        forall|i: int| 0 <= i < spec_fen_bytes(v).len() ==> #[trigger] spec_fen_bytes(v)[i] < 128,
{
    lemma_placement_ascii(v.piece, v.color, 0);
    lemma_dec_ascii(v.ply_pawn as int);
    lemma_dec_ascii(v.ply as int);
}


/// Cell arrays as the loader builds them: every square either carries a
/// real piece of one side or is empty, and no marker is present yet.
pub open spec fn cells_ok(p: Seq<usize>, cl: Seq<usize>) -> bool {
    &&& p.len() == 64
    &&& cl.len() == 64
    &&& forall|i: int| 0 <= i < 64 ==> ((#[trigger] p[i] <= piece::KING && (cl[i] == color::WHITE
        || cl[i] == color::BLACK)) || (p[i] == square::EMPTY && cl[i] == square::EMPTY))
}

/// ORing a castling bit into a rights nibble keeps it a nibble.
proof fn lemma_or_keeps_low(x: usize)
    ensures
        x <= 15 ==> (x | 1) <= 15 && (x | 2) <= 15 && (x | 4) <= 15 && (x | 8) <= 15,
{
    assert(x <= 15 ==> (x | 1) <= 15 && (x | 2) <= 15 && (x | 4) <= 15 && (x | 8) <= 15)
        by (bit_vector);
}

fn ws_byte(x: u8) -> (r: bool)
    ensures
        r == is_ws(x),
{
    x == 32 || x == 9 || x == 10 || x == 13
}



/// Byte offsets of the five scalar fields inside a printed position,
/// measured from the start of the text.
pub open spec fn ofs_side(v: BoardView) -> int {
    spec_placement_bytes(v.piece, v.color, 0).len() as int + 1
}

pub open spec fn ofs_castle(v: BoardView) -> int {
    ofs_side(v) + 2
}

pub open spec fn ofs_ep(v: BoardView) -> int {
    ofs_castle(v) + spec_castle_bytes(v.castle_rights).len() + 1
}

pub open spec fn ofs_clock1(v: BoardView) -> int {
    ofs_ep(v) + spec_ep_bytes(v.en_passant).len() + 1
}

pub open spec fn ofs_clock2(v: BoardView) -> int {
    ofs_clock1(v) + spec_dec_bytes(v.ply_pawn as int).len() + 1
}

/// Where each field and separating space of the printed position lies
/// within a byte string that carries it between `lo` and `hi`.
proof fn lemma_field_positions(gv: BoardView, b: Seq<u8>, lo: int, hi: int)
    requires
        0 <= lo <= hi <= b.len(),
        spec_fen_bytes(gv) == b.subrange(lo, hi),
    ensures
        hi - lo == ofs_clock2(gv) + spec_dec_bytes(gv.ply as int).len(),
        b[lo + ofs_side(gv) - 1] == 32,
        b[lo + ofs_side(gv)] == (if gv.side == color::WHITE { 119u8 } else { 98u8 }),
        b[lo + ofs_side(gv) + 1] == 32,
        forall|x: int| 0 <= x < spec_castle_bytes(gv.castle_rights).len() ==> #[trigger] b[lo
            + ofs_castle(gv) + x] == spec_castle_bytes(gv.castle_rights)[x],
        b[lo + ofs_ep(gv) - 1] == 32,
        forall|x: int| 0 <= x < spec_ep_bytes(gv.en_passant).len() ==> #[trigger] b[lo + ofs_ep(
            gv,
        ) + x] == spec_ep_bytes(gv.en_passant)[x],
        b[lo + ofs_clock1(gv) - 1] == 32,
        forall|x: int| 0 <= x < spec_dec_bytes(gv.ply_pawn as int).len() ==> #[trigger] b[lo
            + ofs_clock1(gv) + x] == spec_dec_bytes(gv.ply_pawn as int)[x],
        b[lo + ofs_clock2(gv) - 1] == 32,
        forall|x: int| 0 <= x < spec_dec_bytes(gv.ply as int).len() ==> #[trigger] b[lo
            + ofs_clock2(gv) + x] == spec_dec_bytes(gv.ply as int)[x],
{
    let tb = b.subrange(lo, hi);
    let gp = spec_placement_bytes(gv.piece, gv.color, 0);
    let gsb: u8 = if gv.side == color::WHITE {
        119u8
    } else {
        98u8
    };
    let gc = spec_castle_bytes(gv.castle_rights);
    let ge = spec_ep_bytes(gv.en_passant);
    let gd1 = spec_dec_bytes(gv.ply_pawn as int);
    let gd2 = spec_dec_bytes(gv.ply as int);
    assert(tb == gp + seq![32u8] + seq![gsb] + seq![32u8] + gc + seq![32u8] + ge + seq![32u8]
        + gd1 + seq![32u8] + gd2);
    let o1 = gp.len() as int;
    assert(b[lo + o1] == tb[o1] && tb[o1] == 32);
    assert(b[lo + o1 + 1] == tb[o1 + 1] && tb[o1 + 1] == gsb);
    assert(b[lo + o1 + 2] == tb[o1 + 2] && tb[o1 + 2] == 32);
    let oc = o1 + 3;
    assert forall|x: int| 0 <= x < gc.len() implies #[trigger] b[lo + ofs_castle(gv) + x] == gc[x] by {
        assert(tb[oc + x] == gc[x]);
        assert(b[lo + oc + x] == tb[oc + x]);
    }
    let oe = oc + gc.len() as int + 1;
    assert(b[lo + oe - 1] == tb[oe - 1] && tb[oe - 1] == 32);
    assert forall|x: int| 0 <= x < ge.len() implies #[trigger] b[lo + ofs_ep(gv) + x] == ge[x] by {
        assert(tb[oe + x] == ge[x]);
        assert(b[lo + oe + x] == tb[oe + x]);
    }
    let od1 = oe + ge.len() as int + 1;
    assert(b[lo + od1 - 1] == tb[od1 - 1] && tb[od1 - 1] == 32);
    assert forall|x: int| 0 <= x < gd1.len() implies #[trigger] b[lo + ofs_clock1(gv) + x] == gd1[x] by {
        assert(tb[od1 + x] == gd1[x]);
        assert(b[lo + od1 + x] == tb[od1 + x]);
    }
    let od2 = od1 + gd1.len() as int + 1;
    assert(b[lo + od2 - 1] == tb[od2 - 1] && tb[od2 - 1] == 32);
    assert forall|x: int| 0 <= x < gd2.len() implies #[trigger] b[lo + ofs_clock2(gv) + x] == gd2[x] by {
        assert(tb[od2 + x] == gd2[x]);
        assert(b[lo + od2 + x] == tb[od2 + x]);
    }
}

impl Sboard {
    /// Scan the placement field into the two cell boards, returning them
    /// with the cursor one past the field's closing space.  When the
    /// whole trimmed input is the canonical print of a well-formed
    /// position, the scan cannot fail and rebuilds that position's
    /// boards, markers cleared.
    #[verifier::rlimit(100)]
    fn parse_placement(
        b: &[u8],
        lo: usize,
        hi: usize,
        Ghost(hyp): Ghost<bool>,
        Ghost(gv): Ghost<BoardView>,
    ) -> (r: Option<([usize; 64], [usize; 64], usize)>)
        requires
            lo <= hi <= b@.len(),
            hyp ==> wf(gv) && spec_fen_bytes(gv) == b@.subrange(lo as int, hi as int),
        ensures
            r matches Some(t) ==> ({
                &&& cells_ok(t.0@, t.1@)
                &&& forall|i: int| 0 <= i < 64 ==> #[trigger] t.0@[i] != square::EPS_SQUARE
                &&& lo < t.2 <= hi
            }),
            hyp ==> (r matches Some(t) && ({
                &&& forall|x: int| 0 <= x < 64 ==> #[trigger] t.0@[x] == spec_clean_piece(
                    gv.piece,
                    x,
                )
                &&& forall|x: int| 0 <= x < 64 ==> #[trigger] t.1@[x] == spec_clean_color(
                    gv.piece,
                    gv.color,
                    x,
                )
                &&& t.2 == lo + spec_placement_bytes(gv.piece, gv.color, 0).len() + 1
            })),
    {
        let ghost tb = b@.subrange(lo as int, hi as int);
        let ghost gp = spec_placement_bytes(gv.piece, gv.color, 0);
        let mut np: [usize; 64] = [square::EMPTY; 64];
        let mut nc: [usize; 64] = [square::EMPTY; 64];
        let ghost np0 = np@;
        let ghost nc0 = nc@;
        proof {
            assert(forall|i: int| 0 <= i < 64 ==> #[trigger] np0[i] == square::EMPTY);
            assert(forall|i: int| 0 <= i < 64 ==> #[trigger] nc0[i] == square::EMPTY);
            assert(tb.take(0) =~= Seq::<u8>::empty());
            if hyp {
                assert(tb == gp + seq![32u8] + seq![
                    if gv.side == color::WHITE { 119u8 } else { 98u8 },
                ] + seq![32u8] + spec_castle_bytes(gv.castle_rights) + seq![32u8] + spec_ep_bytes(
                    gv.en_passant,
                ) + seq![32u8] + spec_dec_bytes(gv.ply_pawn as int) + seq![32u8] + spec_dec_bytes(
                    gv.ply as int,
                ));
                assert(gp.len() < tb.len());
                assert(tb[gp.len() as int] == 32);
                assert(forall|x: int| 0 <= x < gp.len() ==> #[trigger] tb[x] == gp[x]);
            }
        }
        let mut j = lo;
        let mut k: usize = 0;
        while j < hi && b[j] != 32
            invariant
                lo <= j <= hi <= b@.len(),
                k <= 64,
                cells_ok(np@, nc@),
                forall|i: int| 0 <= i < 64 ==> #[trigger] np@[i] != square::EPS_SQUARE,
                forall|i: int| 0 <= i < 64 ==> #[trigger] np0[i] == square::EMPTY,
                forall|i: int| 0 <= i < 64 ==> #[trigger] nc0[i] == square::EMPTY,
                np0.len() == 64,
                nc0.len() == 64,
                tb == b@.subrange(lo as int, hi as int),
                gp == spec_placement_bytes(gv.piece, gv.color, 0),
                spec_cells_fold(tb.take(j - lo), (0, np0, nc0)) == Some((k as int, np@, nc@)),
                hyp ==> wf(gv) && spec_fen_bytes(gv) == tb,
                hyp ==> j - lo <= gp.len(),
                hyp ==> gp.len() < tb.len(),
                hyp ==> tb[gp.len() as int] == 32,
                hyp ==> forall|x: int| 0 <= x < gp.len() ==> #[trigger] tb[x] == gp[x],
            decreases hi - j,
        {
            let ch = b[j];
            proof {
                assert(tb[j - lo] == ch);
                assert(tb.take(j + 1 - lo) =~= tb.take(j - lo) + seq![ch]);
                lemma_cells_fold_append(tb.take(j - lo), seq![ch], (0, np0, nc0));
                reveal_with_fuel(spec_cells_fold, 2);
                assert(seq![ch].drop_first() =~= Seq::<u8>::empty());
                if hyp {
                    lemma_in_placement(gv, tb, j - lo);
                }
            }
            if ch == 47 {
                // rank separator
            } else if 49 <= ch && ch <= 56 {
                let run = (ch - 48) as usize;
                if k + run > 64 {
                    proof {
                        if hyp {
                            assert(spec_cell_step((k as int, np@, nc@), ch) is None);
                            lemma_placement_fold(gv.piece, gv.color, 0, (0, np0, nc0));
                            lemma_cells_fold_prefix(gp, j + 1 - lo, (0, np0, nc0));
                            assert(gp.take(j + 1 - lo) =~= tb.take(j + 1 - lo));
                            assert(false);
                        }
                    }
                    return None;
                }
                k = k + run;
            } else {
                let decoded: Option<(usize, usize)> = if ch == 112 {
                    Some((piece::PAWN, color::BLACK))
                } else if ch == 114 {
                    Some((piece::ROOK, color::BLACK))
                } else if ch == 110 {
                    Some((piece::KNIGHT, color::BLACK))
                } else if ch == 98 {
                    Some((piece::BISHOP, color::BLACK))
                } else if ch == 107 {
                    Some((piece::KING, color::BLACK))
                } else if ch == 113 {
                    Some((piece::QUEEN, color::BLACK))
                } else if ch == 80 {
                    Some((piece::PAWN, color::WHITE))
                } else if ch == 82 {
                    Some((piece::ROOK, color::WHITE))
                } else if ch == 78 {
                    Some((piece::KNIGHT, color::WHITE))
                } else if ch == 66 {
                    Some((piece::BISHOP, color::WHITE))
                } else if ch == 75 {
                    Some((piece::KING, color::WHITE))
                } else if ch == 81 {
                    Some((piece::QUEEN, color::WHITE))
                } else {
                    None
                };
                proof {
                    assert(decoded == spec_letter(ch));
                }
                match decoded {
                    Some(pc) => {
                        if k >= 64 {
                            proof {
                                if hyp {
                                    assert(spec_cell_step((k as int, np@, nc@), ch) is None);
                                    lemma_placement_fold(gv.piece, gv.color, 0, (0, np0, nc0));
                                    lemma_cells_fold_prefix(gp, j + 1 - lo, (0, np0, nc0));
                                    assert(gp.take(j + 1 - lo) =~= tb.take(j + 1 - lo));
                                    assert(false);
                                }
                            }
                            return None;
                        }
                        np[k] = pc.0;
                        nc[k] = pc.1;
                        k = k + 1;
                    },
                    None => {
                        proof {
                            if hyp {
                                assert(spec_cell_step((k as int, np@, nc@), ch) is None);
                                lemma_placement_fold(gv.piece, gv.color, 0, (0, np0, nc0));
                                lemma_cells_fold_prefix(gp, j + 1 - lo, (0, np0, nc0));
                                assert(gp.take(j + 1 - lo) =~= tb.take(j + 1 - lo));
                                assert(false);
                            }
                        }
                        return None;
                    },
                }
            }
            j = j + 1;
        }
        proof {
            if hyp {
                lemma_placement_min(gv.piece, gv.color, 0);
                if j < hi {
                    assert(tb[j - lo] == b@[j as int]);
                }
                if j - lo < gp.len() {
                    if j >= hi {
                        assert(gp.len() < tb.len() && tb.len() == hi - lo);
                        assert(false);
                    }
                    assert(tb[j - lo] == gp[j - lo]);
                    assert(gp[j - lo] >= 47);
                    assert(false);
                }
                assert(j - lo == gp.len());
                assert(tb.take(j - lo) =~= gp);
                lemma_placement_fold(gv.piece, gv.color, 0, (0, np0, nc0));
                assert(k == 64);
                assert(j < hi);
            }
        }
        if k != 64 || j >= hi {
            return None;
        }
        Some((np, nc, j + 1))
    }
}


impl Sboard {
    /// Scan the castling field.  When the bytes at `start` carry the
    /// printed rights `want` followed by a space, the scan rebuilds
    /// exactly `want`.
    fn parse_castle(
        b: &[u8],
        hi: usize,
        start: usize,
        Ghost(hyp): Ghost<bool>,
        Ghost(want): Ghost<usize>,
    ) -> (r: Option<(usize, usize)>)
        requires
            start <= hi <= b@.len(),
            hyp ==> ({
                &&& want <= 15
                &&& start + spec_castle_bytes(want).len() < hi
                &&& b@[start as int + spec_castle_bytes(want).len()] == 32
                &&& forall|x: int| 0 <= x < spec_castle_bytes(want).len() ==> #[trigger] b@[
                    start + x] == spec_castle_bytes(want)[x]
            }),
        ensures
            r matches Some(t) ==> (t.0 <= 15 && start <= t.1 <= hi),
            hyp ==> (r matches Some(t) && t.0 == want && t.1 == start + spec_castle_bytes(
                want,
            ).len()),
    {
        let ghost gc = spec_castle_bytes(want);
        let mut cr: usize = 0;
        let mut j = start;
        if j < hi && b[j] == 45 {
            proof {
                if hyp {
                    if want != 0 {
                        lemma_castle_fold(want);
                        assert(b@[start + 0] == gc[0]);
                        assert(false);
                    }
                    assert(gc =~= seq![45u8]);
                }
            }
            j = j + 1;
        } else {
            proof {
                if hyp {
                    if want == 0 {
                        assert(gc =~= seq![45u8]);
                        assert(b@[start + 0] == gc[0]);
                        assert(false);
                    }
                    lemma_castle_fold(want);
                    assert(gc.take(0) =~= Seq::<u8>::empty());
                }
            }
            while j < hi && b[j] != 32
                invariant
                    start <= j <= hi <= b@.len(),
                    cr <= 15,
                    gc == spec_castle_bytes(want),
                    hyp ==> 1 <= want <= 15,
                    hyp ==> start + gc.len() < hi,
                    hyp ==> b@[start as int + gc.len()] == 32,
                    hyp ==> forall|x: int| 0 <= x < gc.len() ==> #[trigger] b@[start + x]
                        == gc[x],
                    hyp ==> j - start <= gc.len(),
                    hyp ==> spec_castle_fold(gc.take(j - start), 0) == Some(cr),
                decreases hi - j,
            {
                proof {
                    if hyp {
                        if j - start == gc.len() {
                            assert(false);
                        }
                        assert(b@[start + (j - start)] == gc[j - start]);
                        assert(b@[j as int] == gc[j - start]);
                        lemma_castle_fold(want);
                        assert(gc.take(j + 1 - start) =~= gc.take(j - start) + seq![gc[j
                            - start]]);
                        lemma_castle_fold_append(gc.take(j - start), seq![gc[j - start]], 0);
                        reveal_with_fuel(spec_castle_fold, 2);
                        assert(seq![gc[j - start]].drop_first() =~= Seq::<u8>::empty());
                    }
                    lemma_or_keeps_low(cr);
                }
                if b[j] == 75 {
                    cr = cr | 1;
                } else if b[j] == 81 {
                    cr = cr | 2;
                } else if b[j] == 107 {
                    cr = cr | 4;
                } else if b[j] == 113 {
                    cr = cr | 8;
                } else {
                    proof {
                        if hyp {
                            assert(false);
                        }
                    }
                    return None;
                }
                j = j + 1;
            }
            proof {
                if hyp {
                    if j - start < gc.len() {
                        if j >= hi {
                            assert(false);
                        }
                        assert(b@[start + (j - start)] == gc[j - start]);
                        lemma_castle_fold(want);
                        assert(false);
                    }
                    assert(gc.take(j - start) =~= gc);
                    lemma_castle_fold(want);
                    assert(cr == want);
                }
            }
        }
        Some((cr, j))
    }

    /// Scan the en-passant field: a dash or a square name on one of the
    /// two eligible ranks.
    fn parse_ep(
        b: &[u8],
        hi: usize,
        start: usize,
        Ghost(hyp): Ghost<bool>,
        Ghost(want): Ghost<i16>,
    ) -> (r: Option<(i16, usize)>)
        requires
            start <= hi <= b@.len(),
            hyp ==> ({
                &&& (want == -1 || (16 <= want < 24) || (40 <= want < 48))
                &&& start + spec_ep_bytes(want).len() < hi
                &&& forall|x: int| 0 <= x < spec_ep_bytes(want).len() ==> #[trigger] b@[start
                    + x] == spec_ep_bytes(want)[x]
            }),
        ensures
            r matches Some(t) ==> ((t.0 == -1 || (16 <= t.0 < 24) || (40 <= t.0 < 48)) && start
                <= t.1 <= hi),
            hyp ==> (r matches Some(t) && t.0 == want && t.1 == start + spec_ep_bytes(
                want,
            ).len()),
    {
        let ghost ge = spec_ep_bytes(want);
        if start < hi && b[start] == 45 {
            proof {
                if hyp {
                    if want != -1 {
                        assert(b@[start + 0] == ge[0]);
                        assert(ge[0] == square::spec_file_byte(want as int));
                        assert(false);
                    }
                }
            }
            return Some((-1, start + 1));
        }
        proof {
            if hyp {
                if want == -1 {
                    assert(ge =~= seq![45u8]);
                    assert(b@[start + 0] == ge[0]);
                    assert(false);
                }
                assert(ge.len() == 2);
            }
        }
        if hi - start < 2 {
            proof {
                if hyp {
                    assert(false);
                }
            }
            return None;
        }
        let f = b[start];
        let rk = b[start + 1];
        proof {
            if hyp {
                assert(b@[start + 0] == ge[0]);
                assert(b@[start + 1] == ge[1]);
                assert(f == square::spec_file_byte(want as int));
                assert(rk == square::spec_rank_byte(want as int));
            }
        }
        if f < 97 || f > 104 || rk < 49 || rk > 56 {
            proof {
                if hyp {
                    assert(false);
                }
            }
            return None;
        }
        let idx: usize = (56 - rk as usize) * 8 + (f as usize - 97);
        proof {
            if hyp {
                assert(idx as int == want as int);
            }
        }
        if !((16 <= idx && idx < 24) || (40 <= idx && idx < 48)) {
            proof {
                if hyp {
                    assert(false);
                }
            }
            return None;
        }
        Some((idx as i16, start + 2))
    }

    /// Scan one clock field.  When the bytes at `start` carry the
    /// decimal print of `want` up to a space (or, for the last field,
    /// up to the end of the text), the scan rebuilds exactly `want`.
    fn parse_clock(
        b: &[u8],
        hi: usize,
        start: usize,
        Ghost(hyp): Ghost<bool>,
        Ghost(want): Ghost<int>,
        Ghost(last): Ghost<bool>,
    ) -> (r: Option<(usize, usize)>)
        requires
            start <= hi <= b@.len(),
            hyp ==> ({
                &&& 0 <= want <= usize::MAX
                &&& start + spec_dec_bytes(want).len() <= hi
                &&& (!last ==> start + spec_dec_bytes(want).len() < hi && b@[start as int
                    + spec_dec_bytes(want).len()] == 32)
                &&& (last ==> start + spec_dec_bytes(want).len() == hi)
                &&& forall|x: int| 0 <= x < spec_dec_bytes(want).len() ==> #[trigger] b@[start
                    + x] == spec_dec_bytes(want)[x]
            }),
        ensures
            r matches Some(t) ==> start <= t.1 <= hi,
            hyp ==> (r matches Some(t) && t.0 as int == want && t.1 == start + spec_dec_bytes(
                want,
            ).len()),
    {
        let ghost fld = spec_dec_bytes(want);
        let mut value: usize = 0;
        let mut saw_digit: bool = false;
        let mut j = start;
        proof {
            if hyp {
                lemma_dec_fold(want);
                assert(fld.take(0) =~= Seq::<u8>::empty());
            }
        }
        while j < hi && b[j] != 32
            invariant
                start <= j <= hi <= b@.len(),
                fld == spec_dec_bytes(want),
                hyp ==> 0 <= want <= usize::MAX,
                hyp ==> start + fld.len() <= hi,
                hyp ==> (!last ==> start + fld.len() < hi && b@[start as int + fld.len()]
                    == 32),
                hyp ==> (last ==> start + fld.len() == hi),
                hyp ==> forall|x: int| 0 <= x < fld.len() ==> #[trigger] b@[start + x]
                    == fld[x],
                hyp ==> j - start <= fld.len(),
                hyp ==> spec_dec_fold(fld.take(j - start), 0) == Some(value as int),
                saw_digit == (j > start),
            decreases hi - j,
        {
            let d = b[j];
            proof {
                if hyp {
                    lemma_dec_fold(want);
                    if j - start == fld.len() {
                        assert(false);
                    }
                    assert(b@[start + (j - start)] == fld[j - start]);
                    assert(d == fld[j - start]);
                    assert(fld.take(j + 1 - start) =~= fld.take(j - start) + seq![d]);
                    lemma_dec_fold_append(fld.take(j - start), seq![d], 0);
                    reveal_with_fuel(spec_dec_fold, 2);
                    assert(seq![d].drop_first() =~= Seq::<u8>::empty());
                }
            }
            if d < 48 || d > 57 {
                proof {
                    if hyp {
                        assert(false);
                    }
                }
                return None;
            }
            let dv = (d - 48) as usize;
            if value > (usize::MAX - dv) / 10 {
                proof {
                    if hyp {
                        lemma_dec_fold_prefix(fld, j + 1 - start, 0);
                        assert(false);
                    }
                }
                return None;
            }
            proof {
                let mx = usize::MAX - dv;
                assert(mx as int == 10 * (mx as int / 10) + mx as int % 10);
                assert(value * 10 + dv <= usize::MAX);
            }
            value = value * 10 + dv;
            saw_digit = true;
            j = j + 1;
        }
        proof {
            if hyp {
                lemma_dec_fold(want);
                if j - start < fld.len() {
                    if j >= hi {
                        assert(false);
                    }
                    assert(b@[start + (j - start)] == fld[j - start]);
                    assert(false);
                }
                assert(fld.take(j - start) =~= fld);
                assert(value as int == want);
                assert(saw_digit);
            }
        }
        if !saw_digit {
            proof {
                if hyp {
                    assert(false);
                }
            }
            return None;
        }
        Some((value, j))
    }
}

impl Sboard {
    /// Check the rebuilt position's structural soundness, build it with
    /// a freshly scanned hash, and accept it only if it prints back to
    /// the trimmed input.
    fn finalize(
        b: &[u8],
        lo: usize,
        hi: usize,
        np_in: [usize; 64],
        nc: [usize; 64],
        side: usize,
        cr: usize,
        ep: i16,
        ply_pawn: usize,
        ply: usize,
        Ghost(hyp): Ghost<bool>,
        Ghost(gv): Ghost<BoardView>,
    ) -> (r: Option<Sboard>)
        requires
            lo <= hi <= b@.len(),
            cells_ok(np_in@, nc@),
            forall|i: int| 0 <= i < 64 ==> #[trigger] np_in@[i] != square::EPS_SQUARE,
            side == color::WHITE || side == color::BLACK,
            cr <= 15,
            ep == -1 || (16 <= ep < 24) || (40 <= ep < 48),
            hyp ==> ({
                &&& wf(gv)
                &&& spec_fen_bytes(gv) == b@.subrange(lo as int, hi as int)
                &&& forall|x: int| 0 <= x < 64 ==> #[trigger] np_in@[x] == spec_clean_piece(
                    gv.piece,
                    x,
                )
                &&& forall|x: int| 0 <= x < 64 ==> #[trigger] nc@[x] == spec_clean_color(
                    gv.piece,
                    gv.color,
                    x,
                )
                &&& side == gv.side
                &&& cr == gv.castle_rights
                &&& ep == gv.en_passant
                &&& ply_pawn == gv.ply_pawn
                &&& ply == gv.ply
            }),
        ensures
            r matches Some(bd) ==> ({
                &&& wf(bd@)
                &&& spec_fen_bytes(bd@) == b@.subrange(lo as int, hi as int)
                &&& bd@.hist.len() == 1
            }),
            hyp ==> r is Some,
    {
        let mut np = np_in;

        // no pawn may stand on a back rank
        let mut i: usize = 0;
        while i < 8
            invariant
                i <= 8,
                np == np_in,
                cells_ok(np@, nc@),
                forall|ii: int| 0 <= ii < i ==> #[trigger] np@[ii] != piece::PAWN,
                hyp ==> forall|x: int| 0 <= x < 64 ==> #[trigger] np@[x] == spec_clean_piece(
                    gv.piece,
                    x,
                ),
                hyp ==> forall|x: int| 0 <= x < 64 && #[trigger] gv.piece[x] == piece::PAWN
                    ==> 8 <= x < 56,
            decreases 8 - i,
        {
            if np[i] == piece::PAWN {
                proof {
                    if hyp {
                        assert(gv.piece[i as int] == piece::PAWN);
                        assert(false);
                    }
                }
                return None;
            }
            i = i + 1;
        }
        let mut i2: usize = 56;
        while i2 < 64
            invariant
                56 <= i2 <= 64,
                np == np_in,
                cells_ok(np@, nc@),
                forall|ii: int| 56 <= ii < i2 ==> #[trigger] np@[ii] != piece::PAWN,
                hyp ==> forall|x: int| 0 <= x < 64 ==> #[trigger] np@[x] == spec_clean_piece(
                    gv.piece,
                    x,
                ),
                hyp ==> forall|x: int| 0 <= x < 64 && #[trigger] gv.piece[x] == piece::PAWN
                    ==> 8 <= x < 56,
            decreases 64 - i2,
        {
            if np[i2] == piece::PAWN {
                proof {
                    if hyp {
                        assert(gv.piece[i2 as int] == piece::PAWN);
                        assert(false);
                    }
                }
                return None;
            }
            i2 = i2 + 1;
        }

        // the en-passant marker square and the pawn behind it
        if ep >= 0 {
            let epu = ep as usize;
            proof {
                if hyp {
                    assert(gv.piece[epu as int] == square::EPS_SQUARE);
                }
            }
            if np[epu] != square::EMPTY || nc[epu] != square::EMPTY {
                proof {
                    if hyp {
                        assert(false);
                    }
                }
                return None;
            }
            if 16 <= epu && epu < 24 {
                if side != color::WHITE || np[epu + 8] != piece::PAWN || nc[epu + 8]
                    != color::BLACK {
                    proof {
                        if hyp {
                            assert(gv.piece[epu + 8] == piece::PAWN);
                            assert(false);
                        }
                    }
                    return None;
                }
            } else {
                if side != color::BLACK || np[epu - 8] != piece::PAWN || nc[epu - 8]
                    != color::WHITE {
                    proof {
                        if hyp {
                            assert(gv.piece[epu - 8] == piece::PAWN);
                            assert(false);
                        }
                    }
                    return None;
                }
            }
        }

        // every castling right still held needs its king and rook home
        if cr & 1 != 0 {
            if np[60] != piece::KING || nc[60] != color::WHITE || np[63] != piece::ROOK || nc[63]
                != color::WHITE {
                proof {
                    if hyp {
                        assert(gv.piece[60] == piece::KING && gv.piece[63] == piece::ROOK);
                        assert(false);
                    }
                }
                return None;
            }
        }
        if cr & 2 != 0 {
            if np[60] != piece::KING || nc[60] != color::WHITE || np[56] != piece::ROOK || nc[56]
                != color::WHITE {
                proof {
                    if hyp {
                        assert(gv.piece[60] == piece::KING && gv.piece[56] == piece::ROOK);
                        assert(false);
                    }
                }
                return None;
            }
        }
        if cr & 4 != 0 {
            if np[4] != piece::KING || nc[4] != color::BLACK || np[7] != piece::ROOK || nc[7]
                != color::BLACK {
                proof {
                    if hyp {
                        assert(gv.piece[4] == piece::KING && gv.piece[7] == piece::ROOK);
                        assert(false);
                    }
                }
                return None;
            }
        }
        if cr & 8 != 0 {
            if np[4] != piece::KING || nc[4] != color::BLACK || np[0] != piece::ROOK || nc[0]
                != color::BLACK {
                proof {
                    if hyp {
                        assert(gv.piece[4] == piece::KING && gv.piece[0] == piece::ROOK);
                        assert(false);
                    }
                }
                return None;
            }
        }

        if ep >= 0 {
            np[ep as usize] = square::EPS_SQUARE;
        }

        let mut tmp_hist: Vec<moves::Shist> = Vec::new();
        tmp_hist.push(moves::Shist::new());
        let tmp_hash = zobrist::hash_key(&np, &nc, cr, ep, side);
        let candidate = Sboard {
            piece: np,
            color: nc,
            side: side,
            hist: tmp_hist,
            castle_rights: cr,
            ply: ply,
            ply_pawn: ply_pawn,
            en_passant: ep,
            hash_key: tmp_hash,
        };
        proof {
            assert(wf(candidate@));
            if hyp {
                assert(candidate@.piece =~= gv.piece);
                assert(candidate@.color =~= gv.color);
                assert(spec_fen_bytes(candidate@) == b@.subrange(lo as int, hi as int));
            }
        }

        let printed = candidate.fen_bytes();
        if printed.len() != hi - lo {
            proof {
                if hyp {
                    assert(false);
                }
            }
            return None;
        }
        let m = printed.len();
        let mut q: usize = 0;
        while q < m
            invariant
                q <= m,
                m == printed@.len(),
                m == hi - lo,
                lo <= hi <= b@.len(),
                hyp ==> printed@ == b@.subrange(lo as int, hi as int),
                forall|x: int| 0 <= x < q ==> #[trigger] printed@[x] == b@[lo + x],
            decreases m - q,
        {
            if printed[q] != b[lo + q] {
                proof {
                    if hyp {
                        assert(printed@[q as int] == b@.subrange(lo as int, hi as int)[
                            q as int]);
                        assert(false);
                    }
                }
                return None;
            }
            q = q + 1;
        }
        proof {
            assert(printed@ =~= b@.subrange(lo as int, hi as int));
        }
        Some(candidate)
    }

    /// Load a position from six-field board notation.  The text is
    /// parsed, the position rebuilt from scratch (with the hash
    /// recomputed by a full scan), and the text accepted only if the
    /// rebuilt position prints back to exactly the trimmed input; on
    /// any failure the position is left untouched.  So the accepted
    /// texts are exactly the canonical prints of well-formed positions:
    /// every accepted text round-trips through `get_fen`, and every
    /// text that is the print of a well-formed position is accepted.
    #[verifier::rlimit(100)]
    pub fn set_fen(&mut self, fen: &str) -> (r: bool)
        ensures
            !r ==> final(self)@ == old(self)@,
            r ==> wf(final(self)@),
            r ==> spec_fen_bytes(final(self)@) == spec_trim(fen.spec_bytes()),
            r ==> final(self)@.hist.len() == 1,
            (exists|v: BoardView|
                wf(v) && v.hist.len() == 1 && spec_fen_bytes(v) == spec_trim(fen.spec_bytes()))
                ==> r,
    {
        let b: &[u8] = fen.as_bytes();
        let n = b.len();

        let mut lo: usize = 0;
        proof {
            assert(b@.skip(0) =~= b@);
        }
        while lo < n && ws_byte(b[lo])
            invariant
                lo <= n,
                n == b@.len(),
                spec_trim_front(b@) == spec_trim_front(b@.skip(lo as int)),
            decreases n - lo,
        {
            proof {
                assert(b@.skip(lo as int).drop_first() =~= b@.skip(lo + 1));
            }
            lo = lo + 1;
        }
        proof {
            assert(spec_trim_front(b@) == b@.skip(lo as int));
        }
        let mut hi: usize = n;
        while hi > lo && ws_byte(b[hi - 1])
            invariant
                lo <= hi <= n,
                n == b@.len(),
                spec_trim_front(b@) == b@.skip(lo as int),
                spec_trim_back(b@.skip(lo as int)) == spec_trim_back(
                    b@.subrange(lo as int, hi as int),
                ),
            decreases hi,
        {
            proof {
                assert(b@.subrange(lo as int, hi as int).drop_last() =~= b@.subrange(
                    lo as int,
                    hi - 1,
                ));
            }
            hi = hi - 1;
        }
        proof {
            assert(b@.skip(lo as int) =~= b@.subrange(lo as int, n as int));
            assert(spec_trim(b@) == b@.subrange(lo as int, hi as int));
        }

        let ghost tb = b@.subrange(lo as int, hi as int);
        let ghost hyp = exists|v: BoardView|
            wf(v) && v.hist.len() == 1 && spec_fen_bytes(v) == tb;
        let ghost gv: BoardView = if hyp {
            choose|v: BoardView| wf(v) && v.hist.len() == 1 && spec_fen_bytes(v) == tb
        } else {
            vstd::pervasive::arbitrary()
        };
        proof {
            if hyp {
                assert(wf(gv) && spec_fen_bytes(gv) == tb);
                lemma_field_positions(gv, b@, lo as int, hi as int);
            }
        }

        // the placement field
        let parsed = Self::parse_placement(b, lo, hi, Ghost(hyp), Ghost(gv));
        let (np, nc, jp) = match parsed {
            Some(t) => t,
            None => {
                return false;
            },
        };
        let mut j = jp;
        proof {
            if hyp {
                assert(j == lo + ofs_side(gv));
            }
        }

        // side to move
        if j >= hi {
            proof {
                if hyp {
                    assert(false);
                }
            }
            return false;
        }
        let side: usize = if b[j] == 119 {
            color::WHITE
        } else if b[j] == 98 {
            color::BLACK
        } else {
            proof {
                if hyp {
                    assert(b@[j as int] == b@[lo + ofs_side(gv)]);
                    assert(false);
                }
            }
            return false;
        };
        proof {
            if hyp {
                assert(b@[j as int] == b@[lo + ofs_side(gv)]);
                assert(side == gv.side);
            }
        }
        j = j + 1;
        if j >= hi || b[j] != 32 {
            proof {
                if hyp {
                    assert(b@[j as int] == b@[lo + ofs_side(gv) + 1]);
                    assert(false);
                }
            }
            return false;
        }
        j = j + 1;

        // castling rights
        proof {
            if hyp {
                assert(j == lo + ofs_castle(gv));
                assert forall|x: int|
                    0 <= x < spec_castle_bytes(gv.castle_rights).len() implies #[trigger] b@[
                    j + x] == spec_castle_bytes(gv.castle_rights)[x] by {
                    assert(b@[lo + ofs_castle(gv) + x] == spec_castle_bytes(
                        gv.castle_rights,
                    )[x]);
                }
                assert(b@[j as int + spec_castle_bytes(gv.castle_rights).len()] == b@[lo
                    + ofs_ep(gv) - 1]);
            }
        }
        let pc = Self::parse_castle(b, hi, j, Ghost(hyp), Ghost(gv.castle_rights));
        let (cr, jc) = match pc {
            Some(t) => t,
            None => {
                return false;
            },
        };
        j = jc;
        if j >= hi || b[j] != 32 {
            proof {
                if hyp {
                    assert(b@[j as int] == b@[lo + ofs_ep(gv) - 1]);
                    assert(false);
                }
            }
            return false;
        }
        j = j + 1;

        // en-passant target
        proof {
            if hyp {
                assert(j == lo + ofs_ep(gv));
                assert forall|x: int|
                    0 <= x < spec_ep_bytes(gv.en_passant).len() implies #[trigger] b@[j + x]
                    == spec_ep_bytes(gv.en_passant)[x] by {
                    assert(b@[lo + ofs_ep(gv) + x] == spec_ep_bytes(gv.en_passant)[x]);
                }
            }
        }
        let pe = Self::parse_ep(b, hi, j, Ghost(hyp), Ghost(gv.en_passant));
        let (ep, je) = match pe {
            Some(t) => t,
            None => {
                return false;
            },
        };
        j = je;
        if j >= hi || b[j] != 32 {
            proof {
                if hyp {
                    assert(b@[j as int] == b@[lo + ofs_clock1(gv) - 1]);
                    assert(false);
                }
            }
            return false;
        }
        j = j + 1;

        // halfmove clock
        proof {
            if hyp {
                assert(j == lo + ofs_clock1(gv));
                assert forall|x: int|
                    0 <= x < spec_dec_bytes(gv.ply_pawn as int).len() implies #[trigger] b@[j
                    + x] == spec_dec_bytes(gv.ply_pawn as int)[x] by {
                    assert(b@[lo + ofs_clock1(gv) + x] == spec_dec_bytes(
                        gv.ply_pawn as int,
                    )[x]);
                }
                assert(b@[j as int + spec_dec_bytes(gv.ply_pawn as int).len()] == b@[lo
                    + ofs_clock2(gv) - 1]);
            }
        }
        let p1 = Self::parse_clock(
            b,
            hi,
            j,
            Ghost(hyp),
            Ghost(gv.ply_pawn as int),
            Ghost(false),
        );
        let (ply_pawn, j1) = match p1 {
            Some(t) => t,
            None => {
                return false;
            },
        };
        j = j1;
        if j >= hi || b[j] != 32 {
            proof {
                if hyp {
                    assert(b@[j as int] == b@[lo + ofs_clock2(gv) - 1]);
                    assert(false);
                }
            }
            return false;
        }
        j = j + 1;

        // fullmove number
        proof {
            if hyp {
                assert(j == lo + ofs_clock2(gv));
                assert forall|x: int|
                    0 <= x < spec_dec_bytes(gv.ply as int).len() implies #[trigger] b@[j + x]
                    == spec_dec_bytes(gv.ply as int)[x] by {
                    assert(b@[lo + ofs_clock2(gv) + x] == spec_dec_bytes(gv.ply as int)[x]);
                }
            }
        }
        let p2 = Self::parse_clock(b, hi, j, Ghost(hyp), Ghost(gv.ply as int), Ghost(true));
        let (ply, j2) = match p2 {
            Some(t) => t,
            None => {
                return false;
            },
        };
        j = j2;
        if j != hi {
            proof {
                if hyp {
                    assert(false);
                }
            }
            return false;
        }

        // rebuild, check, and accept only on an exact print-back
        let built = Self::finalize(
            b,
            lo,
            hi,
            np,
            nc,
            side,
            cr,
            ep,
            ply_pawn,
            ply,
            Ghost(hyp),
            Ghost(gv),
        );
        match built {
            Some(bd) => {
                *self = bd;
                true
            },
            None => false,
        }
    }
}

} // verus!
