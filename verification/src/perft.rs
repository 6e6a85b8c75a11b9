//! Exhaustive move-tree walking.  `mini_max` applies every generated
//! move, recurses, and takes the move back; its contract says the
//! position comes back exactly as it was, which rests on the undo
//! exactness lemma.

use vstd::prelude::*;
use crate::board::{wf, Sboard};
use crate::makemove::lemma_undo_make;
use crate::moves;

verus! {

pub struct Perft {}

impl Perft {
    /// Count the leaves of the legal-move tree below `board` at the
    /// given depth, saturating at the integer limit.  Whatever the
    /// count, the position is restored exactly.
    pub fn mini_max(board: &mut Sboard, depth: i32) -> (nodes: u64)
        requires
            wf(old(board)@),
            depth >= 0,
            old(board).ply + depth <= usize::MAX,
            old(board).ply_pawn + depth <= usize::MAX,
        ensures
            final(board)@ == old(board)@,
            depth == 0 ==> nodes == 1,
        decreases depth,
    {
        if depth == 0 {
            return 1;
        }

        let ghost v0 = board@;
        let mut moves_buf: Vec<moves::Smove> = Vec::new();
        let _num_moves = board.gen_moves(&mut moves_buf);

        let mut nodes: u64 = 0;
        let mut i: usize = 0;
        while i < moves_buf.len()
            invariant
                wf(board@),
                board@ == v0,
                depth >= 1,
                v0.ply + depth <= usize::MAX,
                v0.ply_pawn + depth <= usize::MAX,
                i <= moves_buf@.len(),
                forall|j: int| 0 <= j < moves_buf@.len() ==> crate::movegen::gen_entry_ok(
                    v0,
                    #[trigger] moves_buf@[j],
                ),
            decreases moves_buf@.len() - i,
        {
            let m = moves_buf[i];
            let tmp = board.make_move(&m);
            if tmp.is_none() {
                board.undo_move(&m);
                proof {
                    lemma_undo_make(v0, m);
                }
            } else {
                let sub = Perft::mini_max(board, depth - 1);
                nodes = if u64::MAX - nodes >= sub {
                    nodes + sub
                } else {
                    u64::MAX
                };
                board.undo_move(&m);
                proof {
                    lemma_undo_make(v0, m);
                }
            }
            i = i + 1;
        }

        nodes
    }
}

} // verus!
