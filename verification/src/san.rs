//! Resolving a short algebraic move token against the current position:
//! the token is split into its parts by a regular expression, and the
//! concrete move is picked out of the generated move list.  Whatever is
//! returned is a generated pseudo-legal move of the position, and it
//! fits the token: a castling token yields the side's king hop, any
//! other token a move whose destination, moving piece, promotion piece
//! and origin hints agree with a grammar decomposition of the token.

use vstd::prelude::*;
use vstd::string::StringSliceAdditionalSpecFns;
use crate::board::{wf, BoardView, Sboard};
use crate::color;
use crate::movegen::gen_entry_ok;
use crate::moves;

verus! {

/// The seven groups of a short algebraic move token.
pub struct SanTokens {
    pub piece: String,
    pub from_file: String,
    pub from_rank: String,
    pub separator: String,
    pub dest: String,
    pub promotion: String,
    pub check_mark: String,
}


/// The whole language of the move grammar: the token splits into seven
/// groups, each drawn from its character class — an optional piece
/// letter, optional file and rank hints, an optional capture or dash
/// separator, a destination square, an optional promotion piece with
/// an optional leading equals sign, an optional check or mate mark.
pub open spec fn san_full_decomp(
    san: Seq<char>,
    g: (Seq<char>, Seq<char>, Seq<char>, Seq<char>, Seq<char>, Seq<char>, Seq<char>),
) -> bool {
    &&& san == g.0 + g.1 + g.2 + g.3 + g.4 + g.5 + g.6
    &&& g.0.len() <= 1
    &&& (g.0.len() == 1 ==> (g.0[0] == 'P' || g.0[0] == 'N' || g.0[0] == 'B' || g.0[0] == 'R'
        || g.0[0] == 'Q' || g.0[0] == 'K'))
    &&& g.1.len() <= 1
    &&& (g.1.len() == 1 ==> 'a' <= g.1[0] <= 'h')
    &&& g.2.len() <= 1
    &&& (g.2.len() == 1 ==> '1' <= g.2[0] <= '8')
    &&& g.3.len() <= 1
    &&& (g.3.len() == 1 ==> (g.3[0] == 'x' || g.3[0] == '-'))
    &&& g.4.len() == 2
    &&& 'a' <= g.4[0] <= 'h'
    &&& '1' <= g.4[1] <= '8'
    &&& g.5.len() <= 2
    &&& (g.5.len() > 0 ==> {
        let pc = g.5.last();
        pc == 'q' || pc == 'r' || pc == 'b' || pc == 'n' || pc == 'Q' || pc == 'R' || pc == 'B'
            || pc == 'N'
    })
    &&& (g.5.len() == 2 ==> g.5[0] == '=')
    &&& g.6.len() <= 1
    &&& (g.6.len() == 1 ==> (g.6[0] == '+' || g.6[0] == '#'))
}

/// Relies on `regex::Regex::captures` with the anchored pattern below:
/// when the token matches, each capture group is drawn from its
/// character class — an optional piece letter, optional origin file and
/// rank hints, an optional separator, a two-character destination
/// square, an optional promotion piece, an optional check mark — and
/// the groups concatenate to the whole token.  In the other direction,
/// an anchored pattern matches exactly the strings of its language, so
/// whenever the token splits into the seven classes at all, the call
/// returns the captures.
#[verifier::external_body]
fn san_captures(san: &str) -> (r: Option<SanTokens>)
    ensures
        (exists|g: (Seq<char>, Seq<char>, Seq<char>, Seq<char>, Seq<char>, Seq<char>, Seq<char>)|
            #[trigger] san_full_decomp(san@, g)) ==> r is Some,
        r matches Some(t) ==> {
            &&& t.piece@.len() <= 1
            &&& (t.piece@.len() == 1 ==> (t.piece@[0] == 'P' || t.piece@[0] == 'N' || t.piece@[0]
                == 'B' || t.piece@[0] == 'R' || t.piece@[0] == 'Q' || t.piece@[0] == 'K'))
            &&& t.from_file@.len() <= 1
            &&& (t.from_file@.len() == 1 ==> 'a' <= t.from_file@[0] && t.from_file@[0] <= 'h')
            &&& t.from_rank@.len() <= 1
            &&& (t.from_rank@.len() == 1 ==> '1' <= t.from_rank@[0] && t.from_rank@[0] <= '8')
            &&& t.dest@.len() == 2
            &&& 'a' <= t.dest@[0] && t.dest@[0] <= 'h'
            &&& '1' <= t.dest@[1] && t.dest@[1] <= '8'
            &&& t.promotion@.len() <= 2
            &&& (t.promotion@.len() > 0 ==> {
                let pc = t.promotion@.last();
                pc == 'q' || pc == 'r' || pc == 'b' || pc == 'n' || pc == 'Q' || pc == 'R' || pc
                    == 'B' || pc == 'N'
            })
            &&& (t.promotion@.len() == 2 ==> t.promotion@[0] == '=')
            &&& t.piece@ + t.from_file@ + t.from_rank@ + t.separator@ + t.dest@ + t.promotion@
                + t.check_mark@ == san@
        },
{
    let pattern = r"^([PNBRQK])?([a-h])?([1-8])?(x|-)?([a-h][1-8])(=?[qrbnQRBN])?(\+|#)?$";
    let re = regex::Regex::new(pattern).unwrap();
    match re.captures(san) {
        None => None,
        Some(c) => {
            let g = |i: usize| c.get(i).map_or(String::new(), |m| m.as_str().to_string());
            Some(SanTokens {
                piece: g(1), from_file: g(2), from_rank: g(3), separator: g(4),
                dest: g(5), promotion: g(6), check_mark: g(7),
            })
        },
    }
}

/// Character-for-character string comparison.
fn str_is(s: &str, t: &str) -> (r: bool)
    ensures
        r ==> s@ == t@,
{
    let n = s.unicode_len();
    if n != t.unicode_len() {
        return false;
    }
    let mut i: usize = 0;
    while i < n
        invariant
            n == s@.len(),
            n == t@.len(),
            i <= n,
            forall|k: int| 0 <= k < i ==> s@[k] == #[trigger] t@[k],
        decreases n - i,
    {
        if s.get_char(i) != t.get_char(i) {
            return false;
        }
        i = i + 1;
    }
    proof {
        assert(s@ =~= t@);
    }
    true
}

/// The piece kind named by an optional leading piece letter; no letter
/// names a pawn.
pub open spec fn spec_piece_code(g: Seq<char>) -> usize {
    if g.len() == 0 {
        crate::piece::PAWN
    } else if g[0] == 'N' {
        crate::piece::KNIGHT
    } else if g[0] == 'B' {
        crate::piece::BISHOP
    } else if g[0] == 'R' {
        crate::piece::ROOK
    } else if g[0] == 'Q' {
        crate::piece::QUEEN
    } else if g[0] == 'K' {
        crate::piece::KING
    } else {
        crate::piece::PAWN
    }
}

/// The promotion move type a promotion letter demands.
pub open spec fn spec_promo_tipe(pc: char) -> usize {
    if pc == 'q' || pc == 'Q' {
        moves::MOVE_TYPE_PROMOTION_TO_QUEEN
    } else if pc == 'r' || pc == 'R' {
        moves::MOVE_TYPE_PROMOTION_TO_ROOK
    } else if pc == 'b' || pc == 'B' {
        moves::MOVE_TYPE_PROMOTION_TO_BISHOP
    } else {
        moves::MOVE_TYPE_PROMOTION_TO_KNIGHT
    }
}

/// The token splits into the seven groups of the move grammar: optional
/// piece letter, optional origin-file and origin-rank hints, optional
/// separator, a destination square, an optional promotion piece, an
/// optional check mark.
pub open spec fn san_decomp(
    san: Seq<char>,
    g: (Seq<char>, Seq<char>, Seq<char>, Seq<char>, Seq<char>, Seq<char>, Seq<char>),
) -> bool {
    &&& san == g.0 + g.1 + g.2 + g.3 + g.4 + g.5 + g.6
    &&& g.0.len() <= 1
    &&& g.1.len() <= 1
    &&& g.2.len() <= 1
    &&& g.4.len() == 2
    &&& 'a' <= g.4[0] <= 'h'
    &&& '1' <= g.4[1] <= '8'
    &&& g.5.len() <= 2
}

/// The move agrees with the decomposed token: it goes to the named
/// destination square, moves the named piece kind, promotes exactly as
/// demanded, and obeys any origin-file or origin-rank hint.
pub open spec fn group_fits(
    v: BoardView,
    g: (Seq<char>, Seq<char>, Seq<char>, Seq<char>, Seq<char>, Seq<char>, Seq<char>),
    m: moves::Smove,
) -> bool {
    &&& m.from < 64
    &&& m.dest as int == 8 * (56 - g.4[1] as int) + (g.4[0] as int - 97)
    &&& v.piece[m.from as int] == spec_piece_code(g.0)
    &&& (g.5.len() == 0 ==> m.tipe < moves::MOVE_TYPE_PROMOTION_TO_QUEEN)
    &&& (g.5.len() > 0 ==> m.tipe == spec_promo_tipe(g.5.last()))
    &&& (g.1.len() == 1 ==> g.1[0] as u32 == (97 + (m.from % 8)) as u32)
    &&& (g.2.len() == 1 ==> g.2[0] as u32 == (56 - (m.from / 8)) as u32)
}

/// Some grammar decomposition of the token fits the move.
pub open spec fn san_groups_match(v: BoardView, san: Seq<char>, m: moves::Smove) -> bool {
    exists|g: (Seq<char>, Seq<char>, Seq<char>, Seq<char>, Seq<char>, Seq<char>, Seq<char>)|
        #[trigger] san_decomp(san, g) && group_fits(v, g, m)
}

/// Find the generated move with the given origin and destination
/// squares, named in coordinate form.
pub fn get_move_from_uci(v_from: &str, v_to: &str, board: &Sboard) -> (r: Option<moves::Smove>)
    requires
        wf(board@),
    ensures
        r matches Some(m) ==> gen_entry_ok(board@, m),
        r matches Some(m) ==> ({
            let fb = v_from.spec_bytes();
            let tb = v_to.spec_bytes();
            &&& fb.len() == 2
            &&& tb.len() == 2
            &&& m.from as int == 8 * (56 - fb[1] as int) + (fb[0] as int - 97)
            &&& m.dest as int == 8 * (56 - tb[1] as int) + (tb[0] as int - 97)
        }),
{
    let fb = v_from.as_bytes();
    let tb = v_to.as_bytes();
    if fb.len() != 2 || tb.len() != 2 {
        return None;
    }
    if fb[0] < 97 || fb[0] > 104 || fb[1] < 49 || fb[1] > 56 {
        return None;
    }
    if tb[0] < 97 || tb[0] > 104 || tb[1] < 49 || tb[1] > 56 {
        return None;
    }
    let from: usize = (56 - fb[1] as usize) * 8 + (fb[0] as usize - 97);
    let to: usize = (56 - tb[1] as usize) * 8 + (tb[0] as usize - 97);
    find_move(from, to, board)
}

/// Scan the generated moves for one with the given origin and
/// destination squares.
fn find_move(from: usize, to: usize, board: &Sboard) -> (r: Option<moves::Smove>)
    requires
        wf(board@),
    ensures
        r matches Some(m) ==> gen_entry_ok(board@, m) && m.from == from && m.dest == to,
{
    let mut mvs: Vec<moves::Smove> = Vec::new();
    let _num_moves = board.gen_moves(&mut mvs);
    let mut j: usize = 0;
    while j < mvs.len()
        invariant
            forall|x: int| 0 <= x < mvs@.len() ==> gen_entry_ok(board@, #[trigger] mvs@[x]),
        decreases mvs@.len() - j,
    {
        if from == mvs[j].from && to == mvs[j].dest {
            return Some(mvs[j]);
        }
        j = j + 1;
    }
    None
}

/// Resolve a short algebraic token to a concrete generated move of the
/// position, or report failure.  Castling tokens pick the king's
/// two-square hop; other tokens are matched on destination, moving
/// piece, promotion piece, and any origin-file or origin-rank hint.
pub fn get_move_from_san(san: &String, board: &Sboard) -> (r: Option<moves::Smove>)
    requires
        wf(board@),
    ensures
        r matches Some(m) ==> gen_entry_ok(board@, m),
        r matches Some(m) ==> {
            ||| ((san@ == "O-O"@ || san@ == "O-O+"@) && (if board@.side == color::WHITE {
                m.from == 60 && m.dest == 62
            } else {
                m.from == 4 && m.dest == 6
            }))
            ||| ((san@ == "O-O-O"@ || san@ == "O-O-O+"@) && (if board@.side == color::WHITE {
                m.from == 60 && m.dest == 58
            } else {
                m.from == 4 && m.dest == 2
            }))
            ||| san_groups_match(board@, san@, m)
        },
{
    if str_is(san.as_str(), "O-O") || str_is(san.as_str(), "O-O+") {
        if board.side == color::WHITE {
            return find_move(60, 62, board);
        } else {
            return find_move(4, 6, board);
        }
    }
    if str_is(san.as_str(), "O-O-O") || str_is(san.as_str(), "O-O-O+") {
        if board.side == color::WHITE {
            return find_move(60, 58, board);
        } else {
            return find_move(4, 2, board);
        }
    }

    let toks = match san_captures(san.as_str()) {
        Some(t) => t,
        None => {
            return None;
        },
    };

    // the piece that must be standing on the origin square
    let piece_san: usize = if toks.piece.as_str().unicode_len() == 0 {
        crate::piece::PAWN
    } else {
        let pc = toks.piece.as_str().get_char(0);
        if pc == 'N' {
            crate::piece::KNIGHT
        } else if pc == 'B' {
            crate::piece::BISHOP
        } else if pc == 'R' {
            crate::piece::ROOK
        } else if pc == 'Q' {
            crate::piece::QUEEN
        } else if pc == 'K' {
            crate::piece::KING
        } else {
            crate::piece::PAWN
        }
    };

    let d0 = toks.dest.as_str().get_char(0) as u32;
    let d1 = toks.dest.as_str().get_char(1) as u32;
    let dest_sq: usize = (56 - d1 as usize) * 8 + (d0 as usize - 97);

    // the move type a promotion token demands
    let promo_len = toks.promotion.as_str().unicode_len();
    let wanted_tipe: usize = if promo_len == 0 {
        0
    } else {
        let pc = toks.promotion.as_str().get_char(promo_len - 1);
        if pc == 'q' || pc == 'Q' {
            moves::MOVE_TYPE_PROMOTION_TO_QUEEN
        } else if pc == 'r' || pc == 'R' {
            moves::MOVE_TYPE_PROMOTION_TO_ROOK
        } else if pc == 'b' || pc == 'B' {
            moves::MOVE_TYPE_PROMOTION_TO_BISHOP
        } else {
            moves::MOVE_TYPE_PROMOTION_TO_KNIGHT
        }
    };

    let has_file = toks.from_file.as_str().unicode_len() == 1;
    let file_hint: u32 = if has_file {
        toks.from_file.as_str().get_char(0) as u32
    } else {
        0
    };
    let has_rank = toks.from_rank.as_str().unicode_len() == 1;
    let rank_hint: u32 = if has_rank {
        toks.from_rank.as_str().get_char(0) as u32
    } else {
        0
    };

    let mut mvs: Vec<moves::Smove> = Vec::new();
    let _num_moves = board.gen_moves(&mut mvs);
    let mut j: usize = 0;
    while j < mvs.len()
        invariant
            wf(board@),
            forall|x: int| 0 <= x < mvs@.len() ==> gen_entry_ok(board@, #[trigger] mvs@[x]),
            san@ == toks.piece@ + toks.from_file@ + toks.from_rank@ + toks.separator@
                + toks.dest@ + toks.promotion@ + toks.check_mark@,
            toks.piece@.len() <= 1,
            toks.from_file@.len() <= 1,
            toks.from_rank@.len() <= 1,
            toks.promotion@.len() <= 2,
            toks.dest@.len() == 2,
            'a' <= toks.dest@[0] <= 'h',
            '1' <= toks.dest@[1] <= '8',
            dest_sq as int == 8 * (56 - toks.dest@[1] as int) + (toks.dest@[0] as int - 97),
            piece_san == spec_piece_code(toks.piece@),
            toks.promotion@.len() == 0 ==> wanted_tipe == 0,
            toks.promotion@.len() > 0 ==> wanted_tipe == spec_promo_tipe(toks.promotion@.last()),
            has_file == (toks.from_file@.len() == 1),
            has_file ==> file_hint == toks.from_file@[0] as u32,
            has_rank == (toks.from_rank@.len() == 1),
            has_rank ==> rank_hint == toks.from_rank@[0] as u32,
        decreases mvs@.len() - j,
    {
        let m = mvs[j];
        let mut fits = m.dest == dest_sq && board.piece[m.from] == piece_san;
        if wanted_tipe == 0 {
            fits = fits && m.tipe < moves::MOVE_TYPE_PROMOTION_TO_QUEEN;
        } else {
            fits = fits && m.tipe == wanted_tipe;
        }
        if has_file {
            fits = fits && (97 + (m.from % 8)) as u32 == file_hint;
        }
        if has_rank {
            fits = fits && (56 - (m.from / 8)) as u32 == rank_hint;
        }
        if fits {
            proof {
                let g = (
                    toks.piece@,
                    toks.from_file@,
                    toks.from_rank@,
                    toks.separator@,
                    toks.dest@,
                    toks.promotion@,
                    toks.check_mark@,
                );
                assert(san_decomp(san@, g));
                assert(group_fits(board@, g, m));
                assert(san_groups_match(board@, san@, m));
            }
            return Some(m);
        }
        j = j + 1;
    }
    None
}

/// Resolve a short algebraic move token, the public entry point of the
/// resolver.
pub fn move_from_san(string_: String, board: &Sboard) -> (r: Option<moves::Smove>)
    requires
        wf(board@),
        string_@.len() > 0,
    ensures
        r matches Some(m) ==> gen_entry_ok(board@, m),
        r matches Some(m) ==> {
            ||| ((string_@ == "O-O"@ || string_@ == "O-O+"@) && (if board@.side == color::WHITE {
                m.from == 60 && m.dest == 62
            } else {
                m.from == 4 && m.dest == 6
            }))
            ||| ((string_@ == "O-O-O"@ || string_@ == "O-O-O+"@) && (if board@.side
                == color::WHITE {
                m.from == 60 && m.dest == 58
            } else {
                m.from == 4 && m.dest == 2
            }))
            ||| san_groups_match(board@, string_@, m)
        },
{
    get_move_from_san(&string_, board)
}

} // verus!
