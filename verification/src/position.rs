//! A position together with its key history for repetition detection.
use vstd::prelude::*;
use crate::attacks::Attacks;
use crate::board::ChessBoard;
use crate::fen::{fen_wf, FEN};
use crate::history::{spec_repetitions, MoveHistory, HISTORY_CAPACITY};
use crate::make_move::{apply_move_spec, move_ok};
use crate::moves::Move;

verus! {

pub struct ChessPosition {
    pub board: ChessBoard,
    pub history: MoveHistory,
}

impl ChessPosition {
    pub open spec fn wf(self) -> bool {
        self.board.wf() && self.history.wf()
    }

    /// Import a position, starting with an empty history: accepted exactly
    /// when the board importer accepts the description, and then carrying
    /// exactly the denoted position.
    pub fn from_fen(atk: &Attacks, fen: &FEN) -> (r: Option<ChessPosition>)
        requires
            atk.wf(),
            fen_wf(*fen),
        ensures
            (r is Some) == crate::fen::spec_import_ok(*fen),
            r is Some ==> (r->Some_0).wf() && crate::fen::spec_imported_board(
                *fen,
                (r->Some_0).board,
            ) && (r->Some_0).history.entries() == Seq::<crate::zobrist::ZobristKey>::empty(),
    {
        match ChessBoard::from_fen(atk, fen) {
            Some(board) => Some(ChessPosition { board, history: MoveHistory::new() }),
            None => None,
        }
    }

    /// The current board.
    pub fn board(&self) -> (r: &ChessBoard)
        ensures
            *r == self.board,
    {
        &self.board
    }

    /// Apply a move, remembering the key of the position it leaves; a move
    /// that resets the half-move clock also forgets the history.
    pub fn make_move(&mut self, mv: Move)
        requires
            old(self).wf(),
            move_ok(old(self).board, mv),
            old(self).board.state.half_moves < 255,
            old(self).history.count < HISTORY_CAPACITY,
        ensures
            final(self).wf(),
            final(self).board == apply_move_spec(old(self).board, mv),
            final(self).board.state.half_moves == 0 ==> final(self).history.entries() == Seq::<
                crate::zobrist::ZobristKey,
            >::empty(),
            final(self).board.state.half_moves != 0 ==> final(self).history.entries() == old(
                self,
            ).history.entries().push(crate::zobrist::ZobristKey(old(self).board.spec_key())),
    {
        let key = self.board.get_key();
        self.history.push(key);
        self.board.make_move(mv);
        if self.board.half_move_counter() == 0 {
            self.history.reset();
        }
    }

    /// Whether the current position's key already occurred in the history.
    pub fn is_repetition(&self) -> (r: bool)
        requires
            self.wf(),
            self.history.count <= HISTORY_CAPACITY,
        ensures
            r == (spec_repetitions(
                self.history.entries(),
                crate::zobrist::ZobristKey(self.board.spec_key()),
            ) > 0),
    {
        self.history.get_key_repetitions(self.board.get_key()) > 0
    }
}

impl Default for ChessPosition {
    /// The empty board with an empty history.
    fn default() -> (r: Self)
        ensures
            r.board.pieces == crate::board::spec_empty_pieces(),
            r.history.entries() == Seq::<crate::zobrist::ZobristKey>::empty(),
    {
        ChessPosition { board: ChessBoard::default(), history: MoveHistory::new() }
    }
}

} // verus!
