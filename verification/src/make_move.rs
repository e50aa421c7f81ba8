//! Applying a packed move to the position: capture, castling rook relocation,
//! en-passant, promotion, castling-rights revocation, clocks, phase and the
//! incremental key, with the side to move flipped at the end.
use vstd::prelude::*;
use crate::bits::{bit64, lemma_bit_ops, lsb64};
use crate::board::{
    lemma_one_bit, lemma_phase_lower, lemma_phase_upper, one_bit64, spec_place, spec_remove,
    ChessBoard, ChessBoardState,
};
use crate::castle_rights::{
    rights_cleared_by, spec_rights_cleared_by, CastleRights, BLACK_KING_RIGHT, BLACK_QUEEN_RIGHT,
    WHITE_KING_RIGHT, WHITE_QUEEN_RIGHT,
};
use crate::moves::{
    Move, CAPTURE, DOUBLE_PUSH, EN_PASSANT, KING_SIDE_CASTLE, KNIGHT_PROMOTION, QUEEN_SIDE_CASTLE,
};
use crate::piece::{phase_value, spec_phase_value, Piece, KING, PAWN, ROOK};
use crate::side::{Side, BLACK, WHITE};
use crate::square::Square;
use crate::zobrist::{spec_piece_seed, ZobristKey};

verus! {

/// A board after a piece entered a square, with the key updated.
pub open spec fn board_place(b: ChessBoard, side: u8, piece: u8, sq: u8) -> ChessBoard {
    ChessBoard {
        pieces: spec_place(b.pieces, side, piece, sq),
        state: ChessBoardState {
            zobrist: ZobristKey(b.state.zobrist.0 ^ spec_piece_seed(side, piece, sq)),
            ..b.state
        },
    }
}

/// A board after a piece left a square, with the key updated.
pub open spec fn board_remove(b: ChessBoard, side: u8, piece: u8, sq: u8) -> ChessBoard {
    ChessBoard {
        pieces: spec_remove(b.pieces, side, piece, sq),
        state: ChessBoardState {
            zobrist: ZobristKey(b.state.zobrist.0 ^ spec_piece_seed(side, piece, sq)),
            ..b.state
        },
    }
}

/// What move application assumes of a move: exactly what the legal move
/// generator guarantees about every move it emits for this position. Applying
/// a move that violates this is a caller error.
pub open spec fn move_ok(b: ChessBoard, mv: Move) -> bool {
    let stm = b.stm();
    let from = mv.spec_from();
    let to = mv.spec_to();
    let flag = mv.spec_flag();
    let moved = b.pieces.spec_piece_at(from);
    &&& from < 64 && to < 64 && from != to
    &&& flag != 6 && flag != 7
    &&& b.pieces.spec_occupied(from) && b.pieces.spec_color_at(from) == stm
    &&& if flag & CAPTURE != 0 && flag != EN_PASSANT {
        b.pieces.spec_occupied(to) && b.pieces.spec_color_at(to) == 1 - stm
            && b.pieces.spec_piece_at(to) != KING
    } else {
        !b.pieces.spec_occupied(to)
    }
    &&& flag == DOUBLE_PUSH ==> moved == PAWN && !b.pieces.spec_occupied((to ^ 8) as u8) && (if stm
        == WHITE {
        from / 8 == 1 && to == from + 16
    } else {
        from / 8 == 6 && to + 16 == from
    })
    &&& flag == EN_PASSANT ==> moved == PAWN && b.state.en_passant.0 == to && from != (to ^ 8) as u8
    &&& flag == KING_SIDE_CASTLE ==> moved == KING && to == from + 2 && (if stm == WHITE {
        from == 4 && b.state.castle_rights.spec_has(WHITE_KING_RIGHT) && !b.pieces.spec_occupied(5)
            && !b.pieces.spec_occupied(6)
    } else {
        from == 60 && b.state.castle_rights.spec_has(BLACK_KING_RIGHT) && !b.pieces.spec_occupied(
            61,
        ) && !b.pieces.spec_occupied(62)
    })
    &&& flag == QUEEN_SIDE_CASTLE ==> moved == KING && from == to + 2 && (if stm == WHITE {
        from == 4 && b.state.castle_rights.spec_has(WHITE_QUEEN_RIGHT) && !b.pieces.spec_occupied(
            1,
        ) && !b.pieces.spec_occupied(2) && !b.pieces.spec_occupied(3)
    } else {
        from == 60 && b.state.castle_rights.spec_has(BLACK_QUEEN_RIGHT) && !b.pieces.spec_occupied(
            57,
        ) && !b.pieces.spec_occupied(58) && !b.pieces.spec_occupied(59)
    })
    &&& (flag == crate::moves::QUIET_MOVE || flag == CAPTURE) && moved == PAWN ==> mv.spec_to() / 8
        != 0 && mv.spec_to() / 8 != 7
    &&& flag >= KNIGHT_PROMOTION ==> moved == PAWN && (if stm == WHITE {
        from / 8 == 6 && to / 8 == 7
    } else {
        from / 8 == 1 && to / 8 == 0
    })
}

/// The position reached by applying `mv`: the single definition both the
/// executable `make_move` and the perft recursion are measured against.
pub open spec fn apply_move_spec(b: ChessBoard, mv: Move) -> ChessBoard {
    let stm = b.stm();
    let opp = (1 - stm) as u8;
    let from = mv.spec_from();
    let to = mv.spec_to();
    let flag = mv.spec_flag();
    let moved = b.pieces.spec_piece_at(from);
    let captured = b.pieces.spec_piece_at(to);
    // capture removal (en-passant removes its pawn later)
    let b1 = if flag & CAPTURE != 0 && flag != EN_PASSANT {
        let c = board_remove(b, opp, captured, to);
        ChessBoard {
            state: ChessBoardState {
                phase: (c.state.phase - spec_phase_value(captured)) as u8,
                ..c.state
            },
            ..c
        }
    } else {
        b
    };
    // the moving piece leaves its origin and lands (promotions land later)
    let b2 = board_remove(b1, stm, moved, from);
    let b3 = if flag < KNIGHT_PROMOTION {
        board_place(b2, stm, moved, to)
    } else {
        b2
    };
    // clocks, rights, en-passant
    let half = if moved == PAWN || flag & CAPTURE != 0 {
        0u8
    } else {
        (b3.state.half_moves + 1) as u8
    };
    let rights = b3.state.castle_rights.0 & !(spec_rights_cleared_by(from)
        | spec_rights_cleared_by(to));
    let b4 = ChessBoard {
        state: ChessBoardState {
            half_moves: half,
            castle_rights: CastleRights(rights),
            en_passant: Square(64),
            ..b3.state
        },
        ..b3
    };
    // flag-specific effects
    let b5 = if flag == DOUBLE_PUSH {
        ChessBoard { state: ChessBoardState { en_passant: Square((to ^ 8) as u8), ..b4.state }, ..b4 }
    } else if flag == KING_SIDE_CASTLE {
        let base = if stm == WHITE {
            0u8
        } else {
            56u8
        };
        board_place(board_remove(b4, stm, ROOK, (base + 7) as u8), stm, ROOK, (base + 5) as u8)
    } else if flag == QUEEN_SIDE_CASTLE {
        let base = if stm == WHITE {
            0u8
        } else {
            56u8
        };
        board_place(board_remove(b4, stm, ROOK, base), stm, ROOK, (base + 3) as u8)
    } else if flag == EN_PASSANT {
        board_remove(b4, opp, PAWN, (to ^ 8) as u8)
    } else if flag >= KNIGHT_PROMOTION {
        let promo = mv.spec_promotion_piece();
        let c = board_place(b4, stm, promo, to);
        ChessBoard {
            state: ChessBoardState {
                phase: (c.state.phase + spec_phase_value(promo)) as u8,
                ..c.state
            },
            ..c
        }
    } else {
        b4
    };
    // side to move flips
    ChessBoard { state: ChessBoardState { side_to_move: Side(opp), ..b5.state }, ..b5 }
}

/// Rank arithmetic for the square eight above or below, written with XOR.
pub proof fn lemma_sq_xor8_pub(t: u8)
    ensures
        t < 64 ==> (t ^ 8) < 64 && (t ^ 8) != t && ((t ^ 8) ^ 8) == t,
        t / 8 == 2 ==> (t ^ 8) == t + 8,
        t / 8 == 3 ==> (t ^ 8) == t - 8,
        t / 8 == 4 ==> (t ^ 8) == t + 8,
        t / 8 == 5 ==> (t ^ 8) == t - 8,
{
    lemma_sq_xor8(t);
}

/// Rank arithmetic for the square eight above or below, written with XOR.
proof fn lemma_sq_xor8(t: u8)
    by (bit_vector)
    ensures
        t < 64 ==> (t ^ 8) < 64 && (t ^ 8) != t && ((t ^ 8) ^ 8) == t,
        t / 8 == 2 ==> (t ^ 8) == t + 8,
        t / 8 == 3 ==> (t ^ 8) == t - 8,
        t / 8 == 4 ==> (t ^ 8) == t + 8,
        t / 8 == 5 ==> (t ^ 8) == t - 8,
{
}

impl ChessBoard {
    /// Apply a move produced by the legal move generator for this exact
    /// position. No legality re-validation is performed.
    #[verifier::rlimit(100)]
    pub fn make_move(&mut self, mv: Move)
        requires
            old(self).wf(),
            move_ok(*old(self), mv),
            old(self).state.half_moves < 255,
        ensures
            *final(self) == apply_move_spec(*old(self), mv),
            final(self).wf(),
            final(self).stm() == 1 - old(self).stm(),
            final(self).state.half_moves <= old(self).state.half_moves + 1,
    {
        let ghost orig = *self;
        let stm = self.state.side_to_move;
        let opp = stm.flipped();
        let from = mv.get_from_square();
        let to = mv.get_to_square();
        let flag = mv.get_flag();
        let moved = self.get_piece_on_square(from);
        proof {
            lemma_bit_ops();
            assert(orig.pieces.sq_ok(from.0 as u64));
            assert(orig.pieces.sq_ok(to.0 as u64));
            lemma_sq_xor8(to.0);
            crate::bits::lemma_and_le(
                orig.state.castle_rights.0,
                !(spec_rights_cleared_by(from.0) | spec_rights_cleared_by(to.0)),
            );
        }
        if flag & CAPTURE != 0 && flag != EN_PASSANT {
            let captured = self.get_piece_on_square(to);
            proof {
                lemma_phase_lower(self.pieces, to.0, 64);
            }
            self.remove_piece_on_square(opp, to, captured);
            self.state.phase = self.state.phase - phase_value(captured);
        }
        self.remove_piece_on_square(stm, from, moved);
        if flag < KNIGHT_PROMOTION {
            self.set_piece_on_square(stm, to, moved);
        }
        if moved.0 == PAWN || flag & CAPTURE != 0 {
            self.state.half_moves = 0;
        } else {
            self.state.half_moves = self.state.half_moves + 1;
        }
        self.state.castle_rights = CastleRights(
            self.state.castle_rights.0 & !(rights_cleared_by(from) | rights_cleared_by(to)),
        );
        self.state.en_passant = Square(64);
        if flag == DOUBLE_PUSH {
            self.state.en_passant = Square(to.0 ^ 8);
        } else if flag == KING_SIDE_CASTLE {
            let base: u8 = if stm.0 == WHITE {
                0
            } else {
                56
            };
            proof {
                assert(orig.pieces.sq_ok((base + 7) as u64));
            }
            self.remove_piece_on_square(stm, Square(base + 7), Piece(ROOK));
            self.set_piece_on_square(stm, Square(base + 5), Piece(ROOK));
        } else if flag == QUEEN_SIDE_CASTLE {
            let base: u8 = if stm.0 == WHITE {
                0
            } else {
                56
            };
            proof {
                assert(orig.pieces.sq_ok(base as u64));
            }
            self.remove_piece_on_square(stm, Square(base), Piece(ROOK));
            self.set_piece_on_square(stm, Square(base + 3), Piece(ROOK));
        } else if flag == EN_PASSANT {
            proof {
                assert(orig.pieces.sq_ok((to.0 ^ 8) as u64));
            }
            self.remove_piece_on_square(opp, Square(to.0 ^ 8), Piece(PAWN));
        } else if flag >= KNIGHT_PROMOTION {
            let promo = mv.get_promotion_piece();
            self.set_piece_on_square(stm, to, promo);
            proof {
                lemma_one_bit(orig.pieces.kings.0 & orig.pieces.white_occ.0);
                lemma_one_bit(orig.pieces.kings.0 & orig.pieces.black_occ.0);
                let k1 = orig.spec_king_sq(WHITE) as u8;
                let k2 = orig.spec_king_sq(BLACK) as u8;
                assert(orig.pieces.sq_ok(k1 as u64));
                assert(orig.pieces.sq_ok(k2 as u64));
                assert(bit64(orig.pieces.kings.0 & orig.pieces.white_occ.0, k1 as u64));
                assert(bit64(orig.pieces.kings.0 & orig.pieces.black_occ.0, k2 as u64));
                crate::board::lemma_bits_as_preds(orig.pieces, k1 as u64);
                crate::board::lemma_bits_as_preds(orig.pieces, k2 as u64);
                assert(orig.pieces.spec_piece_at(k1) == KING);
                assert(orig.pieces.spec_piece_at(k2) == KING);
                assert(k1 != k2);
                assert(k1 != from.0 && k1 != to.0 && k2 != from.0 && k2 != to.0);
                assert(self.pieces.spec_piece_at(k1) == KING);
                assert(self.pieces.spec_piece_at(k2) == KING);
                assert(self.pieces.spec_weight(k1) == 0);
                assert(self.pieces.spec_weight(k2) == 0);
                lemma_phase_upper(self.pieces, k1, k2, 64);
            }
            self.state.phase = self.state.phase + phase_value(promo);
        }
        self.state.side_to_move.mut_flip();
        proof {
            lemma_move_result(orig, mv, *self);
            assert(*self == apply_move_spec(orig, mv));
        }
    }
}

/// The result of a legal move application is well-formed: one king per side
/// survives, the en-passant and castling conditions are re-established, and
/// the hash and phase invariants carry over from the mutation chain.
#[verifier::rlimit(100)]
#[verifier::spinoff_prover]
proof fn lemma_move_result(o: ChessBoard, mv: Move, r: ChessBoard)
    requires
        o.wf(),
        move_ok(o, mv),
        r.pieces.wf(),
        r.hash_ok(),
        r.phase_ok(),
        r.state.side_to_move.0 == 1 - o.stm(),
        r.state.castle_rights.0 == o.state.castle_rights.0 & !(spec_rights_cleared_by(
            mv.spec_from(),
        ) | spec_rights_cleared_by(mv.spec_to())),
        r.state.en_passant.0 == (if mv.spec_flag() == DOUBLE_PUSH {
            (mv.spec_to() ^ 8) as u8
        } else {
            64u8
        }),
        move_squares_map(o, mv, r),
    ensures
        r.wf(),
{
    lemma_bit_ops();
    let stm = o.stm();
    let from = mv.spec_from();
    let to = mv.spec_to();
    let flag = mv.spec_flag();
    let moved = o.pieces.spec_piece_at(from);
    lemma_sq_xor8(to as u8);
    crate::bits::lemma_and_le(
        o.state.castle_rights.0,
        !(spec_rights_cleared_by(from) | spec_rights_cleared_by(to)),
    );
    assert(o.pieces.sq_ok(from as u64));
    assert(o.pieces.sq_ok(to as u64));
    lemma_one_bit(o.pieces.kings.0 & o.pieces.white_occ.0);
    lemma_one_bit(o.pieces.kings.0 & o.pieces.black_occ.0);
    let wk = lsb64(o.pieces.kings.0 & o.pieces.white_occ.0);
    let bk = lsb64(o.pieces.kings.0 & o.pieces.black_occ.0);
    assert(o.pieces.sq_ok(wk));
    assert(o.pieces.sq_ok(bk));
    assert(bit64(o.pieces.kings.0 & o.pieces.white_occ.0, wk));
    assert(bit64(o.pieces.kings.0 & o.pieces.black_occ.0, bk));
    crate::board::lemma_bits_as_preds(o.pieces, wk);
    crate::board::lemma_bits_as_preds(o.pieces, bk);
    let extra1 = spec_extra1(o, mv);
    let extra2 = spec_extra2(o, mv);
    let wk2: u64 = if stm == WHITE && moved == KING {
        to as u64
    } else {
        wk
    };
    let bk2: u64 = if stm == BLACK && moved == KING {
        to as u64
    } else {
        bk
    };
    let landed = if flag >= KNIGHT_PROMOTION {
        mv.spec_promotion_piece()
    } else {
        moved
    };
    assert((flag & 3) < 4 && (flag & CAPTURE) < 16) by (bit_vector);
    assert(landed == KING <==> moved == KING);
    assert(o.pieces.spec_piece_at(to) != KING);
    assert(extra1 < 64 && extra2 < 64);
    assert(flag == KING_SIDE_CASTLE || flag == QUEEN_SIDE_CASTLE ==> o.pieces.spec_piece_at(
        extra1 as u8,
    ) == ROOK && moved == KING && extra2 != to as u64 && extra2 != from as u64 && extra1 != to as u64);
    assert(flag == EN_PASSANT ==> o.pieces.spec_piece_at(extra1 as u8) == PAWN);
    crate::board::lemma_bits_as_preds(o.pieces, from as u64);
    crate::board::lemma_bits_as_preds(o.pieces, to as u64);
    if moved == KING {
        if stm == WHITE {
            assert(bit64(o.pieces.kings.0 & o.pieces.white_occ.0, from as u64));
            assert(wk == from as u64);
        } else {
            assert(bit64(o.pieces.kings.0 & o.pieces.black_occ.0, from as u64));
            assert(bk == from as u64);
        }
    }
    assert forall|i: u64| i < 64 implies #[trigger] bit64(
        r.pieces.kings.0 & r.pieces.white_occ.0,
        i,
    ) == (i == wk2) && bit64(r.pieces.kings.0 & r.pieces.black_occ.0, i) == (i == bk2) by {
        assert(o.pieces.sq_ok(i));
        assert(r.pieces.sq_ok(i));
        crate::board::lemma_bits_as_preds(o.pieces, i);
        crate::board::lemma_bits_as_preds(r.pieces, i);
        assert(bit64(o.pieces.kings.0 & o.pieces.white_occ.0, i) == (i == wk));
        assert(bit64(o.pieces.kings.0 & o.pieces.black_occ.0, i) == (i == bk));
        if i == to as u64 {
            assert(r.pieces.spec_piece_at(i as u8) == landed && r.pieces.spec_color_at(i as u8)
                == stm && r.pieces.spec_occupied(i as u8));
        } else if i == from as u64 {
            assert(!r.pieces.spec_occupied(i as u8));
        } else if i == extra1 {
            if flag == KING_SIDE_CASTLE || flag == QUEEN_SIDE_CASTLE || flag == EN_PASSANT {
                assert(!r.pieces.spec_occupied(i as u8));
                assert(o.pieces.spec_piece_at(i as u8) != KING);
            } else {
                assert(i == from as u64);
            }
        } else if i == extra2 {
            if flag == KING_SIDE_CASTLE || flag == QUEEN_SIDE_CASTLE {
                assert(r.pieces.spec_piece_at(i as u8) == ROOK && o.pieces.spec_piece_at(i as u8)
                    != KING);
            } else {
                assert(i == from as u64);
            }
        } else {
            lemma_preserved_sq(o, mv, r, i as u8);
        }
    }
    assert forall|i: u64| i < 64 implies #[trigger] bit64(
        r.pieces.kings.0 & r.pieces.black_occ.0,
        i,
    ) == (i == bk2) by {
        assert(bit64(r.pieces.kings.0 & r.pieces.white_occ.0, i) == (i == wk2) && bit64(
            r.pieces.kings.0 & r.pieces.black_occ.0,
            i,
        ) == (i == bk2));
    }
    crate::board::lemma_one_bit_intro(r.pieces.kings.0 & r.pieces.white_occ.0, wk2);
    crate::board::lemma_one_bit_intro(r.pieces.kings.0 & r.pieces.black_occ.0, bk2);
    if flag == DOUBLE_PUSH {
        lemma_preserved_sq(o, mv, r, (to ^ 8) as u8);
        assert(r.ep_ok());
    }
    assert forall|i: u64| i < 64 implies (#[trigger] bit64(r.pieces.pawns.0, i) ==> 1 <= i / 8
        <= 6) by {
        assert(o.pieces.sq_ok(i));
        assert(r.pieces.sq_ok(i));
        crate::board::lemma_bits_as_preds(o.pieces, i);
        crate::board::lemma_bits_as_preds(r.pieces, i);
        if bit64(r.pieces.pawns.0, i) {
            if i == to as u64 {
            } else if i == from as u64 {
            } else if i == extra1 || i == extra2 {
            } else {
                assert(bit64(o.pieces.pawns.0, i));
            }
        }
    }
    assert forall|h: u8|
        (h == 0 || h == 4 || h == 7 || h == 56 || h == 60 || h == 63) && h != from && h != to && (
        h as u64) != extra1 && (h as u64) != extra2 implies #[trigger] r.pieces.spec_piece_at(h)
        == o.pieces.spec_piece_at(h) && r.pieces.spec_color_at(h) == o.pieces.spec_color_at(h) by {
        lemma_preserved_sq(o, mv, r, h);
    }
    assert(r.castle_ok()) by {
        lemma_u8_mask_facts(
            o.state.castle_rights.0,
            spec_rights_cleared_by(from),
            spec_rights_cleared_by(to),
            WHITE_KING_RIGHT,
        );
        lemma_u8_mask_facts(
            o.state.castle_rights.0,
            spec_rights_cleared_by(from),
            spec_rights_cleared_by(to),
            WHITE_QUEEN_RIGHT,
        );
        lemma_u8_mask_facts(
            o.state.castle_rights.0,
            spec_rights_cleared_by(from),
            spec_rights_cleared_by(to),
            BLACK_KING_RIGHT,
        );
        lemma_u8_mask_facts(
            o.state.castle_rights.0,
            spec_rights_cleared_by(from),
            spec_rights_cleared_by(to),
            BLACK_QUEEN_RIGHT,
        );
        if flag == EN_PASSANT {
            assert(24 <= extra1 < 40);
        }
        if r.state.castle_rights.spec_has(WHITE_KING_RIGHT) {
            assert(from != 4 && from != 7 && to != 4 && to != 7);
            lemma_preserved_sq(o, mv, r, 4);
            lemma_preserved_sq(o, mv, r, 7);
        }
        if r.state.castle_rights.spec_has(WHITE_QUEEN_RIGHT) {
            assert(from != 4 && from != 0 && to != 4 && to != 0);
            lemma_preserved_sq(o, mv, r, 4);
            lemma_preserved_sq(o, mv, r, 0);
        }
        if r.state.castle_rights.spec_has(BLACK_KING_RIGHT) {
            assert(from != 60 && from != 63 && to != 60 && to != 63);
            lemma_preserved_sq(o, mv, r, 60);
            lemma_preserved_sq(o, mv, r, 63);
        }
        if r.state.castle_rights.spec_has(BLACK_QUEEN_RIGHT) {
            assert(from != 60 && from != 56 && to != 60 && to != 56);
            lemma_preserved_sq(o, mv, r, 60);
            lemma_preserved_sq(o, mv, r, 56);
        }
    }
}

/// Bit algebra of the castling-rights masks: a right that survives the
/// clearing mask was present before, and neither cleared component held it.
proof fn lemma_u8_mask_facts(a: u8, m1: u8, m2: u8, c: u8)
    by (bit_vector)
    requires
        c == 1 || c == 2 || c == 4 || c == 8,
    ensures
        (a & !(m1 | m2)) & c != 0 ==> (a & c) != 0 && m1 & c == 0 && m2 & c == 0,
        0b1100u8 & 0b0100u8 != 0,
        0b1100u8 & 0b1000u8 != 0,
        0b0100u8 & 0b0100u8 != 0,
        0b1000u8 & 0b1000u8 != 0,
        0b0011u8 & 0b0001u8 != 0,
        0b0011u8 & 0b0010u8 != 0,
        0b0001u8 & 0b0001u8 != 0,
        0b0010u8 & 0b0010u8 != 0,
{
}

/// A square the move does not touch keeps its contents.
proof fn lemma_preserved_sq(o: ChessBoard, mv: Move, r: ChessBoard, q: u8)
    requires
        move_squares_map(o, mv, r),
        q < 64,
        q != mv.spec_from(),
        q != mv.spec_to(),
        q as u64 != spec_extra1(o, mv),
        q as u64 != spec_extra2(o, mv),
    ensures
        r.pieces.spec_piece_at(q) == o.pieces.spec_piece_at(q),
        r.pieces.spec_color_at(q) == o.pieces.spec_color_at(q),
        r.pieces.spec_occupied(q) == o.pieces.spec_occupied(q),
{
}

/// The first square, besides the origin and destination, whose contents a
/// move changes (a castling rook's origin, or the en-passant victim).
pub open spec fn spec_extra1(o: ChessBoard, mv: Move) -> u64 {
    let flag = mv.spec_flag();
    if flag == KING_SIDE_CASTLE {
        if o.stm() == WHITE {
            7
        } else {
            63
        }
    } else if flag == QUEEN_SIDE_CASTLE {
        if o.stm() == WHITE {
            0
        } else {
            56
        }
    } else if flag == EN_PASSANT {
        (mv.spec_to() ^ 8) as u64
    } else {
        mv.spec_from() as u64
    }
}

/// The second such square: a castling rook's destination.
pub open spec fn spec_extra2(o: ChessBoard, mv: Move) -> u64 {
    let flag = mv.spec_flag();
    if flag == KING_SIDE_CASTLE {
        if o.stm() == WHITE {
            5
        } else {
            61
        }
    } else if flag == QUEEN_SIDE_CASTLE {
        if o.stm() == WHITE {
            3
        } else {
            59
        }
    } else {
        mv.spec_from() as u64
    }
}

/// How the piece placement of the result relates to the origin, square by
/// square: the squares the move touches hold their new contents, every other
/// square is untouched.
pub open spec fn move_squares_map(o: ChessBoard, mv: Move, r: ChessBoard) -> bool {
    let stm = o.stm();
    let from = mv.spec_from();
    let to = mv.spec_to();
    let flag = mv.spec_flag();
    let moved = o.pieces.spec_piece_at(from);
    let landed = if flag >= KNIGHT_PROMOTION {
        mv.spec_promotion_piece()
    } else {
        moved
    };

    &&& r.pieces.spec_piece_at(to) == landed && r.pieces.spec_color_at(to) == stm
        && r.pieces.spec_occupied(to)
    &&& !r.pieces.spec_occupied(from)
    &&& (flag == KING_SIDE_CASTLE || flag == QUEEN_SIDE_CASTLE) ==> (!r.pieces.spec_occupied(
        spec_extra1(o, mv) as u8,
    ) && r.pieces.spec_piece_at(spec_extra2(o, mv) as u8) == ROOK && r.pieces.spec_color_at(
        spec_extra2(o, mv) as u8,
    ) == stm && r.pieces.spec_occupied(spec_extra2(o, mv) as u8))
    &&& flag == EN_PASSANT ==> !r.pieces.spec_occupied(spec_extra1(o, mv) as u8)
    &&& forall|q: u8|
        q < 64 && q != from && q != to && q as u64 != spec_extra1(o, mv) && q as u64
            != spec_extra2(o, mv) ==> (#[trigger] r.pieces.spec_piece_at(q))
            == o.pieces.spec_piece_at(q) && r.pieces.spec_color_at(q) == o.pieces.spec_color_at(q)
            && r.pieces.spec_occupied(q) == o.pieces.spec_occupied(q)
}

/// The incrementally maintained key of a well-formed position equals the
/// placement hash recomputed from scratch over every square, and the full
/// position key likewise re-derives from scratch; since move application
/// re-establishes well-formedness, this holds of every position reachable
/// from a well-formed one.
pub proof fn lemma_hash_consistency(b: ChessBoard)
    requires
        b.wf(),
    ensures
        b.state.zobrist.0 == b.pieces.spec_piece_hash(),
        b.spec_key() == b.spec_scratch_key(),
{
}

/// Deriving a successor position is a pure function of the source value:
/// after the successor of `b` under `mv` is formed (what move application
/// does to a scratch copy), the source `b` is unchanged and its stored key
/// still re-derives from scratch.
pub proof fn lemma_source_key_stable(b: ChessBoard, mv: Move)
    requires
        b.wf(),
        move_ok(b, mv),
    ensures
        ({
            let copy = apply_move_spec(b, mv);
            b.state.zobrist.0 == b.pieces.spec_piece_hash() && copy == apply_move_spec(b, mv)
        }),
{
}

} // verus!
