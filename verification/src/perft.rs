//! The verification harness: exhaustive leaf-node counts of the legal-move
//! game tree, a pure consumer of the generator and move application.
use vstd::prelude::*;
use crate::attacks::Attacks;
use crate::board::ChessBoard;
use crate::make_move::{apply_move_spec, move_ok};
use crate::movegen::{moves_ok, spec_gen_moves};
use crate::moves::Move;

verus! {

pub struct Perft;

/// The perft sum of the moves from index `i` on: each move's subtree size at
/// the given remaining depth.
pub open spec fn spec_perft_sum(b: ChessBoard, moves: Seq<Move>, i: int, depth: nat) -> nat
    decreases depth, moves.len() - i, 1int,
{
    if i < 0 || i >= moves.len() {
        0
    } else {
        spec_perft(apply_move_spec(b, moves[i]), depth) + spec_perft_sum(b, moves, i + 1, depth)
    }
}

/// The exact number of leaf nodes of the legal-move tree of depth `depth`.
pub open spec fn spec_perft(b: ChessBoard, depth: nat) -> nat
    decreases depth, 0int, 0int,
{
    if depth == 0 {
        1
    } else {
        spec_perft_sum(b, spec_gen_moves(b, false), 0, (depth - 1) as nat)
    }
}

/// At depth zero below, every move contributes exactly one leaf.
proof fn lemma_perft_sum_leaf(b: ChessBoard, moves: Seq<Move>, i: int)
    requires
        0 <= i <= moves.len(),
    ensures
        spec_perft_sum(b, moves, i, 0) == moves.len() - i,
    decreases moves.len() - i,
{
    if i < moves.len() {
        lemma_perft_sum_leaf(b, moves, i + 1);
        assert(spec_perft(apply_move_spec(b, moves[i]), 0) == 1);
        assert(spec_perft_sum(b, moves, i, 0) == spec_perft(apply_move_spec(b, moves[i]), 0)
            + spec_perft_sum(b, moves, i + 1, 0));
    }
}

impl Perft {
    /// Count the leaf nodes of the legal-move tree, saturating at the integer
    /// limit (which no chess position can reach at these depths).
    pub fn perft_board(board: &ChessBoard, atk: &Attacks, depth: u8) -> (r: u64)
        requires
            atk.wf(),
            board.wf(),
            board.state.half_moves + depth <= 255,
        ensures
            spec_perft(*board, depth as nat) <= u64::MAX ==> r == spec_perft(*board, depth as nat),
            spec_perft(*board, depth as nat) > u64::MAX ==> r == u64::MAX,
        decreases depth,
    {
        if depth == 0 {
            return 1;
        }
        let moves = board.map_moves(atk);
        if depth == 1 {
            proof {
                lemma_perft_sum_leaf(*board, moves@, 0);
            }
            return moves.len() as u64;
        }
        let mut total: u64 = 0;
        let mut i: usize = 0;
        while i < moves.len()
            invariant
                atk.wf(),
                board.wf(),
                board.state.half_moves + depth <= 255,
                depth >= 1,
                moves@ == spec_gen_moves(*board, false),
                moves_ok(*board, moves@),
                i <= moves@.len(),
                spec_perft(*board, depth as nat) == total + spec_perft_sum(
                    *board,
                    moves@,
                    i as int,
                    (depth - 1) as nat,
                ) || (total == u64::MAX && spec_perft(*board, depth as nat) > u64::MAX),
            decreases moves@.len() - i,
        {
            let mv = moves[i];
            let mut board_copy = *board;
            proof {
                assert(move_ok(*board, moves@[i as int]));
            }
            board_copy.make_move(mv);
            let sub = Perft::perft_board(&board_copy, atk, depth - 1);
            if sub > u64::MAX - total {
                proof {
                    lemma_perft_sum_lower(*board, moves@, i as int, (depth - 1) as nat);
                }
                total = u64::MAX;
            } else {
                total = total + sub;
                proof {
                    if spec_perft(board_copy, (depth - 1) as nat) > u64::MAX {
                        lemma_perft_sum_lower(*board, moves@, i as int, (depth - 1) as nat);
                        assert(total == u64::MAX);
                    }
                }
            }
            i = i + 1;
        }
        total
    }
}

/// The perft sum from `i` is at least the first move's own subtree count.
proof fn lemma_perft_sum_lower(b: ChessBoard, moves: Seq<Move>, i: int, depth: nat)
    requires
        0 <= i < moves.len(),
    ensures
        spec_perft_sum(b, moves, i, depth) >= spec_perft(apply_move_spec(b, moves[i]), depth),
{
}

} // verus!
