//! The mutable position state: piece/occupancy bitboards plus side to move,
//! castling rights, en-passant target, half-move clock, material phase and the
//! incrementally maintained Zobrist key.
use vstd::prelude::*;
use crate::bitboard::Bitboard;
use crate::bits::{bit64, clear_lsb64, lemma_bit_ops, lemma_lsb, lsb64};
use crate::castle_rights::CastleRights;
use crate::piece::{spec_phase_value, Piece, BISHOP, KING, KNIGHT, NO_PIECE, PAWN, QUEEN, ROOK};
use crate::side::{Side, BLACK, WHITE};
use crate::square::Square;
use crate::zobrist::{lemma_xor_algebra, spec_piece_seed, ZobristKey};

verus! {

/// Per-side occupancy plus per-piece-kind bitboards (both sides combined).
#[derive(Copy, Clone, PartialEq, Eq, Structural, Debug)]
pub struct ChessBoardPieces {
    pub white_occ: Bitboard,
    pub black_occ: Bitboard,
    pub pawns: Bitboard,
    pub knights: Bitboard,
    pub bishops: Bitboard,
    pub rooks: Bitboard,
    pub queens: Bitboard,
    pub kings: Bitboard,
}

/// The scalar part of the position state.
#[derive(Copy, Clone, PartialEq, Eq, Structural, Debug)]
pub struct ChessBoardState {
    pub zobrist: ZobristKey,
    pub half_moves: u8,
    pub en_passant: Square,
    pub side_to_move: Side,
    pub castle_rights: CastleRights,
    pub phase: u8,
}

#[derive(Copy, Clone, PartialEq, Eq, Structural, Debug)]
pub struct ChessBoard {
    pub pieces: ChessBoardPieces,
    pub state: ChessBoardState,
}

impl ChessBoardPieces {
    /// The piece-kind bitboard with the given index.
    pub open spec fn spec_piece_mask(self, p: u8) -> u64 {
        if p == PAWN {
            self.pawns.0
        } else if p == KNIGHT {
            self.knights.0
        } else if p == BISHOP {
            self.bishops.0
        } else if p == ROOK {
            self.rooks.0
        } else if p == QUEEN {
            self.queens.0
        } else {
            self.kings.0
        }
    }

    pub open spec fn spec_side_occ(self, side: u8) -> u64 {
        if side == WHITE {
            self.white_occ.0
        } else {
            self.black_occ.0
        }
    }

    pub open spec fn spec_all_occ(self) -> u64 {
        self.white_occ.0 | self.black_occ.0
    }

    pub open spec fn spec_occupied(self, sq: u8) -> bool {
        bit64(self.spec_all_occ(), sq as u64)
    }

    /// The piece kind on a square: the first piece bitboard holding its bit,
    /// or the NONE sentinel.
    pub open spec fn spec_piece_at(self, sq: u8) -> u8 {
        if bit64(self.pawns.0, sq as u64) {
            PAWN
        } else if bit64(self.knights.0, sq as u64) {
            KNIGHT
        } else if bit64(self.bishops.0, sq as u64) {
            BISHOP
        } else if bit64(self.rooks.0, sq as u64) {
            ROOK
        } else if bit64(self.queens.0, sq as u64) {
            QUEEN
        } else if bit64(self.kings.0, sq as u64) {
            KING
        } else {
            NO_PIECE
        }
    }

    /// White if the white occupancy holds the square, else black.
    pub open spec fn spec_color_at(self, sq: u8) -> u8 {
        if bit64(self.white_occ.0, sq as u64) {
            WHITE
        } else {
            BLACK
        }
    }

    /// Structural soundness of one square: at most one side holds it, at
    /// most one piece kind holds it, and a piece stands there exactly when a
    /// side occupies it.
    pub open spec fn sq_ok(self, i: u64) -> bool {
        &&& !(bit64(self.white_occ.0, i) && bit64(self.black_occ.0, i))
        &&& (bit64(self.pawns.0, i) || bit64(self.knights.0, i) || bit64(self.bishops.0, i)
            || bit64(self.rooks.0, i) || bit64(self.queens.0, i) || bit64(self.kings.0, i)) == (
        bit64(self.white_occ.0, i) || bit64(self.black_occ.0, i))
        &&& !(bit64(self.pawns.0, i) && bit64(self.knights.0, i))
        &&& !(bit64(self.pawns.0, i) && bit64(self.bishops.0, i))
        &&& !(bit64(self.pawns.0, i) && bit64(self.rooks.0, i))
        &&& !(bit64(self.pawns.0, i) && bit64(self.queens.0, i))
        &&& !(bit64(self.pawns.0, i) && bit64(self.kings.0, i))
        &&& !(bit64(self.knights.0, i) && bit64(self.bishops.0, i))
        &&& !(bit64(self.knights.0, i) && bit64(self.rooks.0, i))
        &&& !(bit64(self.knights.0, i) && bit64(self.queens.0, i))
        &&& !(bit64(self.knights.0, i) && bit64(self.kings.0, i))
        &&& !(bit64(self.bishops.0, i) && bit64(self.rooks.0, i))
        &&& !(bit64(self.bishops.0, i) && bit64(self.queens.0, i))
        &&& !(bit64(self.bishops.0, i) && bit64(self.kings.0, i))
        &&& !(bit64(self.rooks.0, i) && bit64(self.queens.0, i))
        &&& !(bit64(self.rooks.0, i) && bit64(self.kings.0, i))
        &&& !(bit64(self.queens.0, i) && bit64(self.kings.0, i))
    }

    /// The piece bitboards partition the occupancy, square by square.
    pub open spec fn wf(self) -> bool {
        forall|i: u64| i < 64 ==> #[trigger] self.sq_ok(i)
    }

    /// The Zobrist contribution of one square.
    pub open spec fn spec_contrib(self, sq: u8) -> u64 {
        if self.spec_piece_at(sq) == NO_PIECE {
            0
        } else {
            spec_piece_seed(self.spec_color_at(sq), self.spec_piece_at(sq), sq)
        }
    }

    /// XOR of the Zobrist contributions of squares `0 .. n`.
    pub open spec fn spec_hash_upto(self, n: int) -> u64
        decreases n,
    {
        if n <= 0 {
            0
        } else {
            self.spec_hash_upto(n - 1) ^ self.spec_contrib((n - 1) as u8)
        }
    }

    /// The from-scratch piece-placement hash: XOR over all 64 squares.
    pub open spec fn spec_piece_hash(self) -> u64 {
        self.spec_hash_upto(64)
    }

    /// The material weight on one square.
    pub open spec fn spec_weight(self, sq: u8) -> nat {
        spec_phase_value(self.spec_piece_at(sq)) as nat
    }

    /// Sum of material weights of squares `0 .. n`.
    pub open spec fn spec_phase_upto(self, n: int) -> nat
        decreases n,
    {
        if n <= 0 {
            0
        } else {
            self.spec_phase_upto(n - 1) + self.spec_weight((n - 1) as u8)
        }
    }

    /// The from-scratch material phase: weights summed over all 64 squares.
    pub open spec fn spec_phase_sum(self) -> nat {
        self.spec_phase_upto(64)
    }

    pub fn get_occupancy_for_side(&self, side: Side) -> (r: Bitboard)
        requires
            side.valid(),
        ensures
            r.0 == self.spec_side_occ(side.0),
    {
        if side.0 == WHITE {
            self.white_occ
        } else {
            self.black_occ
        }
    }

    pub fn get_piece_mask(&self, piece: Piece) -> (r: Bitboard)
        requires
            piece.valid(),
        ensures
            r.0 == self.spec_piece_mask(piece.0),
    {
        match piece.0 {
            PAWN => self.pawns,
            KNIGHT => self.knights,
            BISHOP => self.bishops,
            ROOK => self.rooks,
            QUEEN => self.queens,
            _ => self.kings,
        }
    }

    pub fn get_piece_on_square(&self, square: Square) -> (r: Piece)
        requires
            square.on_board(),
        ensures
            r.0 == self.spec_piece_at(square.0),
    {
        if self.pawns.get_bit(square) {
            Piece(PAWN)
        } else if self.knights.get_bit(square) {
            Piece(KNIGHT)
        } else if self.bishops.get_bit(square) {
            Piece(BISHOP)
        } else if self.rooks.get_bit(square) {
            Piece(ROOK)
        } else if self.queens.get_bit(square) {
            Piece(QUEEN)
        } else if self.kings.get_bit(square) {
            Piece(KING)
        } else {
            Piece(NO_PIECE)
        }
    }

    pub fn get_piece_color_on_square(&self, square: Square) -> (r: Side)
        requires
            square.on_board(),
        ensures
            r.0 == self.spec_color_at(square.0),
    {
        if self.white_occ.get_bit(square) {
            Side(WHITE)
        } else {
            Side(BLACK)
        }
    }

    /// Set the piece and side occupancy bits for a piece entering an empty square.
    pub fn set_piece_on_square(&mut self, side: Side, square: Square, piece: Piece)
        requires
            old(self).wf(),
            side.valid(),
            piece.valid(),
            square.on_board(),
            !old(self).spec_occupied(square.0),
        ensures
            *final(self) == spec_place(*old(self), side.0, piece.0, square.0),
            final(self).wf(),
            final(self).spec_piece_mask(piece.0) == old(self).spec_piece_mask(piece.0) | (1u64
                << square.0),
            final(self).spec_side_occ(side.0) == old(self).spec_side_occ(side.0) | (1u64
                << square.0),
            forall|p: u8| p < 6 && p != piece.0 ==> final(self).spec_piece_mask(p) == old(
                self,
            ).spec_piece_mask(p),
            forall|s: u8| s < 2 && s != side.0 ==> final(self).spec_side_occ(s) == old(
                self,
            ).spec_side_occ(s),
            final(self).spec_piece_at(square.0) == piece.0,
            final(self).spec_color_at(square.0) == side.0,
            final(self).spec_occupied(square.0),
            forall|q: u8|
                q < 64 && q != square.0 ==> #[trigger] final(self).spec_piece_at(q) == old(
                    self,
                ).spec_piece_at(q) && final(self).spec_color_at(q) == old(self).spec_color_at(q)
                    && final(self).spec_occupied(q) == old(self).spec_occupied(q),
            final(self).spec_contrib(square.0) == spec_piece_seed(side.0, piece.0, square.0),
            old(self).spec_contrib(square.0) == 0,
            forall|q: u8|
                q < 64 && q != square.0 ==> #[trigger] final(self).spec_contrib(q) == old(
                    self,
                ).spec_contrib(q),
    {
        proof {
            lemma_bit_ops();
        }
        match piece.0 {
            PAWN => self.pawns.set_bit(square),
            KNIGHT => self.knights.set_bit(square),
            BISHOP => self.bishops.set_bit(square),
            ROOK => self.rooks.set_bit(square),
            QUEEN => self.queens.set_bit(square),
            _ => self.kings.set_bit(square),
        }
        if side.0 == WHITE {
            self.white_occ.set_bit(square);
        } else {
            self.black_occ.set_bit(square);
        }
        proof {
            let s = square.0 as u64;
            let o = *old(self);
            assert(o.sq_ok(s));
            assert forall|i: u64| i < 64 implies #[trigger] self.sq_ok(i) by {
                assert(o.sq_ok(i));
            }
            assert forall|q: u8| q < 64 && q != square.0 implies #[trigger] self.spec_piece_at(q)
                == o.spec_piece_at(q) && self.spec_color_at(q) == o.spec_color_at(q)
                && self.spec_occupied(q) == o.spec_occupied(q) by {
                assert(o.sq_ok(q as u64));
            }
            assert forall|q: u8| q < 64 && q != square.0 implies #[trigger] self.spec_contrib(q)
                == o.spec_contrib(q) by {
                assert(self.spec_piece_at(q) == o.spec_piece_at(q));
            }
        }
    }

    /// Clear the piece and side occupancy bits of the piece on a square.
    pub fn remove_piece_on_square(&mut self, side: Side, square: Square, piece: Piece)
        requires
            old(self).wf(),
            side.valid(),
            piece.valid(),
            square.on_board(),
            old(self).spec_piece_at(square.0) == piece.0,
            old(self).spec_color_at(square.0) == side.0,
            old(self).spec_occupied(square.0),
        ensures
            *final(self) == spec_remove(*old(self), side.0, piece.0, square.0),
            final(self).wf(),
            final(self).spec_piece_mask(piece.0) == old(self).spec_piece_mask(piece.0) & !(1u64
                << square.0),
            final(self).spec_side_occ(side.0) == old(self).spec_side_occ(side.0) & !(1u64
                << square.0),
            forall|p: u8| p < 6 && p != piece.0 ==> final(self).spec_piece_mask(p) == old(
                self,
            ).spec_piece_mask(p),
            forall|s: u8| s < 2 && s != side.0 ==> final(self).spec_side_occ(s) == old(
                self,
            ).spec_side_occ(s),
            final(self).spec_piece_at(square.0) == NO_PIECE,
            !final(self).spec_occupied(square.0),
            forall|q: u8|
                q < 64 && q != square.0 ==> #[trigger] final(self).spec_piece_at(q) == old(
                    self,
                ).spec_piece_at(q) && final(self).spec_color_at(q) == old(self).spec_color_at(q)
                    && final(self).spec_occupied(q) == old(self).spec_occupied(q),
            final(self).spec_contrib(square.0) == 0,
            old(self).spec_contrib(square.0) == spec_piece_seed(side.0, piece.0, square.0),
            forall|q: u8|
                q < 64 && q != square.0 ==> #[trigger] final(self).spec_contrib(q) == old(
                    self,
                ).spec_contrib(q),
    {
        proof {
            lemma_bit_ops();
        }
        match piece.0 {
            PAWN => self.pawns.pop_bit(square),
            KNIGHT => self.knights.pop_bit(square),
            BISHOP => self.bishops.pop_bit(square),
            ROOK => self.rooks.pop_bit(square),
            QUEEN => self.queens.pop_bit(square),
            _ => self.kings.pop_bit(square),
        }
        if side.0 == WHITE {
            self.white_occ.pop_bit(square);
        } else {
            self.black_occ.pop_bit(square);
        }
        proof {
            let s = square.0 as u64;
            let o = *old(self);
            assert(o.sq_ok(s));
            assert forall|i: u64| i < 64 implies #[trigger] self.sq_ok(i) by {
                assert(o.sq_ok(i));
            }
            assert forall|q: u8| q < 64 && q != square.0 implies #[trigger] self.spec_piece_at(q)
                == o.spec_piece_at(q) && self.spec_color_at(q) == o.spec_color_at(q)
                && self.spec_occupied(q) == o.spec_occupied(q) by {
                assert(o.sq_ok(q as u64));
            }
            assert forall|q: u8| q < 64 && q != square.0 implies #[trigger] self.spec_contrib(q)
                == o.spec_contrib(q) by {
                assert(self.spec_piece_at(q) == o.spec_piece_at(q));
            }
        }
    }
}

/// If the Zobrist contributions of two boards agree on every square but `s`,
/// the full hashes differ exactly by the two contributions of `s`.
pub proof fn lemma_hash_delta(b1: ChessBoardPieces, b2: ChessBoardPieces, s: u8, n: int)
    requires
        s < 64,
        forall|q: u8| q < 64 && q != s ==> #[trigger] b1.spec_contrib(q) == b2.spec_contrib(q),
    ensures
        n <= s ==> b2.spec_hash_upto(n) == b1.spec_hash_upto(n),
        s < n <= 64 ==> b2.spec_hash_upto(n) == b1.spec_hash_upto(n) ^ (b1.spec_contrib(s)
            ^ b2.spec_contrib(s)),
    decreases n,
{
    lemma_xor_algebra();
    if n > 0 {
        lemma_hash_delta(b1, b2, s, n - 1);
    }
}

/// If the material weights of two boards agree on every square but `s`, the
/// phase sums differ exactly by the two weights of `s`.
pub proof fn lemma_phase_delta(b1: ChessBoardPieces, b2: ChessBoardPieces, s: u8, n: int)
    requires
        s < 64,
        forall|q: u8| q < 64 && q != s ==> #[trigger] b1.spec_weight(q) == b2.spec_weight(q),
    ensures
        n <= s ==> b2.spec_phase_upto(n) == b1.spec_phase_upto(n),
        s < n <= 64 ==> b2.spec_phase_upto(n) + b1.spec_weight(s) == b1.spec_phase_upto(n)
            + b2.spec_weight(s),
    decreases n,
{
    if n > 0 {
        lemma_phase_delta(b1, b2, s, n - 1);
    }
}

/// The phase sum over `0..n` is bounded by `4 * n`.
pub proof fn lemma_phase_bound(b: ChessBoardPieces, n: int)
    requires
        0 <= n <= 64,
    ensures
        b.spec_phase_upto(n) <= 4 * n,
    decreases n,
{
    if n > 0 {
        lemma_phase_bound(b, n - 1);
    }
}

/// Exactly one bit is set.
pub open spec fn one_bit64(b: u64) -> bool {
    b != 0 && b & (b - 1) as u64 == 0
}

/// A word with exactly one set bit equals `1 << lsb`.
pub proof fn lemma_one_bit(b: u64)
    requires
        one_bit64(b),
    ensures
        lsb64(b) < 64,
        b == 1u64 << lsb64(b),
        forall|i: u64| i < 64 ==> #[trigger] bit64(b, i) == (i == lsb64(b)),
{
    lemma_lsb(b);
    lemma_bit_ops();
    let t = lsb64(b);
    assert forall|i: u64| i < 64 implies #[trigger] bit64(b, i) == (i == t) by {
        assert(!bit64(clear_lsb64(b), i));
    }
    crate::bits::lemma_bit_ext(b, 1u64 << t);
}

/// A word whose only set bit is `t` has exactly one bit, at `t`.
pub proof fn lemma_one_bit_intro(b: u64, t: u64)
    requires
        t < 64,
        forall|i: u64| i < 64 ==> #[trigger] bit64(b, i) == (i == t),
    ensures
        one_bit64(b),
        lsb64(b) == t,
{
    lemma_bit_ops();
    crate::bits::lemma_shift_one(t);
    crate::bits::lemma_bit_ext(b, 1u64 << t);
    lemma_lsb(b);
}

/// Reading single bits of the piece and side boards as statements about the
/// piece, colour and occupancy of the square, on a structurally sound square.
pub proof fn lemma_bits_as_preds(p: ChessBoardPieces, i: u64)
    requires
        i < 64,
        p.sq_ok(i),
    ensures
        bit64(p.kings.0, i) == (p.spec_occupied(i as u8) && p.spec_piece_at(i as u8) == KING),
        bit64(p.pawns.0, i) == (p.spec_occupied(i as u8) && p.spec_piece_at(i as u8) == PAWN),
        bit64(p.knights.0, i) == (p.spec_occupied(i as u8) && p.spec_piece_at(i as u8) == KNIGHT),
        bit64(p.bishops.0, i) == (p.spec_occupied(i as u8) && p.spec_piece_at(i as u8) == BISHOP),
        bit64(p.rooks.0, i) == (p.spec_occupied(i as u8) && p.spec_piece_at(i as u8) == ROOK),
        bit64(p.queens.0, i) == (p.spec_occupied(i as u8) && p.spec_piece_at(i as u8) == QUEEN),
        bit64(p.white_occ.0, i) == (p.spec_occupied(i as u8) && p.spec_color_at(i as u8) == WHITE),
        bit64(p.black_occ.0, i) == (p.spec_occupied(i as u8) && p.spec_color_at(i as u8) == BLACK),
        bit64(p.kings.0 & p.white_occ.0, i) == (p.spec_occupied(i as u8) && p.spec_piece_at(
            i as u8,
        ) == KING && p.spec_color_at(i as u8) == WHITE),
        bit64(p.kings.0 & p.black_occ.0, i) == (p.spec_occupied(i as u8) && p.spec_piece_at(
            i as u8,
        ) == KING && p.spec_color_at(i as u8) == BLACK),
{
    lemma_bit_ops();
}

/// One square's mask bits agree between two placements that agree on its
/// piece, colour and occupancy.
proof fn lemma_masks_agree_at(p1: ChessBoardPieces, p2: ChessBoardPieces, i: u64)
    requires
        i < 64,
        p1.sq_ok(i),
        p2.sq_ok(i),
        p1.spec_piece_at(i as u8) == p2.spec_piece_at(i as u8),
        p1.spec_color_at(i as u8) == p2.spec_color_at(i as u8),
        p1.spec_occupied(i as u8) == p2.spec_occupied(i as u8),
    ensures
        bit64(p1.pawns.0, i) == bit64(p2.pawns.0, i),
        bit64(p1.knights.0, i) == bit64(p2.knights.0, i),
        bit64(p1.bishops.0, i) == bit64(p2.bishops.0, i),
        bit64(p1.rooks.0, i) == bit64(p2.rooks.0, i),
        bit64(p1.queens.0, i) == bit64(p2.queens.0, i),
        bit64(p1.kings.0, i) == bit64(p2.kings.0, i),
        bit64(p1.white_occ.0, i) == bit64(p2.white_occ.0, i),
        bit64(p1.black_occ.0, i) == bit64(p2.black_occ.0, i),
{
    lemma_bit_ops();
    lemma_bits_as_preds(p1, i);
    lemma_bits_as_preds(p2, i);
}

/// Two structurally sound piece placements that agree on the piece, colour
/// and occupancy of every square are equal.
pub proof fn lemma_pieces_ext(p1: ChessBoardPieces, p2: ChessBoardPieces)
    requires
        p1.wf(),
        p2.wf(),
        forall|q: u8|
            q < 64 ==> #[trigger] p1.spec_piece_at(q) == p2.spec_piece_at(q)
                && p1.spec_color_at(q) == p2.spec_color_at(q) && p1.spec_occupied(q)
                == p2.spec_occupied(q),
    ensures
        p1 == p2,
{
    lemma_bit_ops();
    assert forall|i: u64| i < 64 implies #[trigger] bit64(p1.pawns.0, i) == bit64(
        p2.pawns.0,
        i,
    ) by {
        lemma_masks_agree_at(p1, p2, i);
    }
    assert forall|i: u64| i < 64 implies #[trigger] bit64(p1.knights.0, i) == bit64(
        p2.knights.0,
        i,
    ) by {
        lemma_masks_agree_at(p1, p2, i);
    }
    assert forall|i: u64| i < 64 implies #[trigger] bit64(p1.bishops.0, i) == bit64(
        p2.bishops.0,
        i,
    ) by {
        lemma_masks_agree_at(p1, p2, i);
    }
    assert forall|i: u64| i < 64 implies #[trigger] bit64(p1.rooks.0, i) == bit64(
        p2.rooks.0,
        i,
    ) by {
        lemma_masks_agree_at(p1, p2, i);
    }
    assert forall|i: u64| i < 64 implies #[trigger] bit64(p1.queens.0, i) == bit64(
        p2.queens.0,
        i,
    ) by {
        lemma_masks_agree_at(p1, p2, i);
    }
    assert forall|i: u64| i < 64 implies #[trigger] bit64(p1.kings.0, i) == bit64(
        p2.kings.0,
        i,
    ) by {
        lemma_masks_agree_at(p1, p2, i);
    }
    assert forall|i: u64| i < 64 implies #[trigger] bit64(p1.white_occ.0, i) == bit64(
        p2.white_occ.0,
        i,
    ) by {
        lemma_masks_agree_at(p1, p2, i);
    }
    assert forall|i: u64| i < 64 implies #[trigger] bit64(p1.black_occ.0, i) == bit64(
        p2.black_occ.0,
        i,
    ) by {
        lemma_masks_agree_at(p1, p2, i);
    }
    crate::bits::lemma_bit_ext(p1.pawns.0, p2.pawns.0);
    crate::bits::lemma_bit_ext(p1.knights.0, p2.knights.0);
    crate::bits::lemma_bit_ext(p1.bishops.0, p2.bishops.0);
    crate::bits::lemma_bit_ext(p1.rooks.0, p2.rooks.0);
    crate::bits::lemma_bit_ext(p1.queens.0, p2.queens.0);
    crate::bits::lemma_bit_ext(p1.kings.0, p2.kings.0);
    crate::bits::lemma_bit_ext(p1.white_occ.0, p2.white_occ.0);
    crate::bits::lemma_bit_ext(p1.black_occ.0, p2.black_occ.0);
}

/// What placing a piece on an empty square of a structurally sound
/// placement does, square by square.
pub proof fn lemma_spec_place_props(p: ChessBoardPieces, side: u8, piece: u8, sq: u8)
    requires
        p.wf(),
        side < 2,
        piece < 6,
        sq < 64,
        !p.spec_occupied(sq),
    ensures
        spec_place(p, side, piece, sq).wf(),
        spec_place(p, side, piece, sq).spec_piece_at(sq) == piece,
        spec_place(p, side, piece, sq).spec_color_at(sq) == side,
        spec_place(p, side, piece, sq).spec_occupied(sq),
        forall|q: u8|
            q < 64 && q != sq ==> #[trigger] spec_place(p, side, piece, sq).spec_piece_at(q)
                == p.spec_piece_at(q) && spec_place(p, side, piece, sq).spec_color_at(q)
                == p.spec_color_at(q) && spec_place(p, side, piece, sq).spec_occupied(q)
                == p.spec_occupied(q),
        spec_place(p, side, piece, sq).spec_phase_sum() == p.spec_phase_sum() + spec_phase_value(
            piece,
        ),
{
    lemma_bit_ops();
    let r = spec_place(p, side, piece, sq);
    assert(p.sq_ok(sq as u64));
    assert(p.spec_piece_at(sq) == NO_PIECE);
    assert forall|i: u64| i < 64 implies #[trigger] r.sq_ok(i) by {
        assert(p.sq_ok(i));
    }
    assert forall|q: u8|
        q < 64 && q != sq implies #[trigger] r.spec_piece_at(q) == p.spec_piece_at(q)
        && r.spec_color_at(q) == p.spec_color_at(q) && r.spec_occupied(q) == p.spec_occupied(
        q,
    ) by {
        assert(p.sq_ok(q as u64));
    }
    assert forall|q: u8| q < 64 && q != sq implies #[trigger] p.spec_weight(q) == r.spec_weight(
        q,
    ) by {
        assert(r.spec_piece_at(q) == p.spec_piece_at(q));
    }
    lemma_phase_delta(p, r, sq, 64);
    assert(p.spec_weight(sq) == 0);
    assert(r.spec_weight(sq) == spec_phase_value(piece));
}

/// Squares of the light-square complex.
pub const LIGHT_SQUARES: u64 = 0x55AA_55AA_55AA_55AA;

/// Squares of the dark-square complex.
pub const DARK_SQUARES: u64 = 0xAA55_AA55_AA55_AA55;

impl ChessBoard {
    /// The side to move.
    pub open spec fn stm(self) -> u8 {
        self.state.side_to_move.0
    }

    /// The square of the given side's king.
    pub open spec fn spec_king_sq(self, side: u8) -> u64 {
        lsb64(self.pieces.kings.0 & self.pieces.spec_side_occ(side))
    }

    /// The incrementally maintained key matches the from-scratch placement hash.
    pub open spec fn hash_ok(self) -> bool {
        self.state.zobrist.0 == self.pieces.spec_piece_hash()
    }

    /// Each side has exactly one king.
    pub open spec fn kings_ok(self) -> bool {
        one_bit64(self.pieces.kings.0 & self.pieces.white_occ.0) && one_bit64(
            self.pieces.kings.0 & self.pieces.black_occ.0,
        )
    }

    /// The en-passant target square, when set, lies on the proper rank, is
    /// empty, and stands in front of an opposing pawn that just double-pushed.
    pub open spec fn ep_ok(self) -> bool {
        let e = self.state.en_passant.0;
        e == 64 || {
            &&& e < 64
            &&& e / 8 == if self.stm() == WHITE {
                5u8
            } else {
                2u8
            }
            &&& !self.pieces.spec_occupied(e)
            &&& self.pieces.spec_piece_at((e ^ 8) as u8) == PAWN
            &&& self.pieces.spec_color_at((e ^ 8) as u8) == 1 - self.stm()
        }
    }

    /// Each castling right still held implies its king and rook stand on
    /// their home squares.
    pub open spec fn castle_ok(self) -> bool {
        &&& self.state.castle_rights.spec_has(crate::castle_rights::WHITE_KING_RIGHT) ==> (
        self.pieces.spec_piece_at(4) == KING && self.pieces.spec_color_at(4) == WHITE
            && self.pieces.spec_piece_at(7) == ROOK && self.pieces.spec_color_at(7) == WHITE)
        &&& self.state.castle_rights.spec_has(crate::castle_rights::WHITE_QUEEN_RIGHT) ==> (
        self.pieces.spec_piece_at(4) == KING && self.pieces.spec_color_at(4) == WHITE
            && self.pieces.spec_piece_at(0) == ROOK && self.pieces.spec_color_at(0) == WHITE)
        &&& self.state.castle_rights.spec_has(crate::castle_rights::BLACK_KING_RIGHT) ==> (
        self.pieces.spec_piece_at(60) == KING && self.pieces.spec_color_at(60) == BLACK
            && self.pieces.spec_piece_at(63) == ROOK && self.pieces.spec_color_at(63) == BLACK)
        &&& self.state.castle_rights.spec_has(crate::castle_rights::BLACK_QUEEN_RIGHT) ==> (
        self.pieces.spec_piece_at(60) == KING && self.pieces.spec_color_at(60) == BLACK
            && self.pieces.spec_piece_at(56) == ROOK && self.pieces.spec_color_at(56) == BLACK)
    }

    /// The phase counter matches the from-scratch sum of material weights.
    pub open spec fn phase_ok(self) -> bool {
        self.state.phase == self.pieces.spec_phase_sum()
    }

    /// No pawn stands on a back rank.
    pub open spec fn pawns_ok(self) -> bool {
        forall|i: u64|
            i < 64 ==> (#[trigger] bit64(self.pieces.pawns.0, i) ==> 1 <= i / 8 <= 6)
    }

    /// The well-formedness invariant of a position: structurally sound piece
    /// boards, consistent hash and phase, one king per side, and consistent
    /// en-passant and castling state.
    pub open spec fn wf(self) -> bool {
        &&& self.pieces.wf()
        &&& self.hash_ok()
        &&& self.kings_ok()
        &&& self.state.side_to_move.valid()
        &&& self.state.castle_rights.valid()
        &&& self.ep_ok()
        &&& self.castle_ok()
        &&& self.phase_ok()
        &&& self.pawns_ok()
    }

    #[inline]
    pub fn get_occupancy(&self) -> (r: Bitboard)
        ensures
            r.0 == self.pieces.spec_all_occ(),
    {
        Bitboard(self.pieces.white_occ.0 | self.pieces.black_occ.0)
    }

    #[inline]
    pub fn get_occupancy_for_side(&self, side: Side) -> (r: Bitboard)
        requires
            side.valid(),
        ensures
            r.0 == self.pieces.spec_side_occ(side.0),
    {
        self.pieces.get_occupancy_for_side(side)
    }

    #[inline]
    pub fn get_piece_mask(&self, piece: Piece) -> (r: Bitboard)
        requires
            piece.valid(),
        ensures
            r.0 == self.pieces.spec_piece_mask(piece.0),
    {
        self.pieces.get_piece_mask(piece)
    }

    #[inline]
    pub fn get_piece_mask_for_side(&self, piece: Piece, side: Side) -> (r: Bitboard)
        requires
            piece.valid(),
            side.valid(),
        ensures
            r.0 == self.pieces.spec_piece_mask(piece.0) & self.pieces.spec_side_occ(side.0),
    {
        Bitboard(self.pieces.get_piece_mask(piece).0 & self.pieces.get_occupancy_for_side(side).0)
    }

    /// The square of the given side's king.
    pub fn get_king_square(&self, side: Side) -> (r: Square)
        requires
            side.valid(),
            self.kings_ok(),
            self.pieces.wf(),
        ensures
            r.0 == self.spec_king_sq(side.0),
            r.on_board(),
            self.pieces.kings.0 & self.pieces.spec_side_occ(side.0) == 1u64 << r.0,
            self.pieces.spec_piece_at(r.0) == KING,
            self.pieces.spec_color_at(r.0) == side.0,
    {
        let mask = Bitboard(self.pieces.kings.0 & self.pieces.get_occupancy_for_side(side).0);
        proof {
            lemma_one_bit(mask.0);
            lemma_bit_ops();
            let t = lsb64(mask.0);
            assert(bit64(mask.0, t));
            assert(self.pieces.sq_ok(t));
        }
        mask.ls1b_square()
    }

    #[inline]
    pub fn get_piece_on_square(&self, square: Square) -> (r: Piece)
        requires
            square.on_board(),
        ensures
            r.0 == self.pieces.spec_piece_at(square.0),
    {
        self.pieces.get_piece_on_square(square)
    }

    #[inline]
    pub fn get_piece_color_on_square(&self, square: Square) -> (r: Side)
        requires
            square.on_board(),
        ensures
            r.0 == self.pieces.spec_color_at(square.0),
    {
        self.pieces.get_piece_color_on_square(square)
    }

    /// Place a piece and fold its seed into the incremental key.
    #[verifier::rlimit(10)]
    pub fn set_piece_on_square(&mut self, side: Side, square: Square, piece: Piece)
        requires
            old(self).pieces.wf(),
            side.valid(),
            piece.valid(),
            square.on_board(),
            !old(self).pieces.spec_occupied(square.0),
        ensures
            final(self).pieces == spec_place(old(self).pieces, side.0, piece.0, square.0),
            final(self).pieces.wf(),
            final(self).state.zobrist.0 == old(self).state.zobrist.0 ^ spec_piece_seed(
                side.0,
                piece.0,
                square.0,
            ),
            old(self).hash_ok() ==> final(self).hash_ok(),
            final(self).pieces.spec_phase_sum() == old(self).pieces.spec_phase_sum()
                + spec_phase_value(piece.0),
            final(self).pieces.spec_piece_mask(piece.0) == old(self).pieces.spec_piece_mask(
                piece.0,
            ) | (1u64 << square.0),
            final(self).pieces.spec_side_occ(side.0) == old(self).pieces.spec_side_occ(side.0) | (
            1u64 << square.0),
            forall|p: u8| p < 6 && p != piece.0 ==> final(self).pieces.spec_piece_mask(p) == old(
                self,
            ).pieces.spec_piece_mask(p),
            forall|s: u8| s < 2 && s != side.0 ==> final(self).pieces.spec_side_occ(s) == old(
                self,
            ).pieces.spec_side_occ(s),
            final(self).pieces.spec_piece_at(square.0) == piece.0,
            final(self).pieces.spec_color_at(square.0) == side.0,
            final(self).pieces.spec_occupied(square.0),
            forall|q: u8|
                q < 64 && q != square.0 ==> #[trigger] final(self).pieces.spec_piece_at(q) == old(
                    self,
                ).pieces.spec_piece_at(q) && final(self).pieces.spec_color_at(q) == old(
                    self,
                ).pieces.spec_color_at(q) && final(self).pieces.spec_occupied(q) == old(
                    self,
                ).pieces.spec_occupied(q),
            final(self).state.half_moves == old(self).state.half_moves,
            final(self).state.en_passant == old(self).state.en_passant,
            final(self).state.side_to_move == old(self).state.side_to_move,
            final(self).state.castle_rights == old(self).state.castle_rights,
            final(self).state.phase == old(self).state.phase,
    {
        let ghost o = self.pieces;
        proof {
            lemma_bit_ops();
            assert(o.sq_ok(square.0 as u64));
            assert(o.spec_piece_at(square.0) == NO_PIECE);
        }
        self.pieces.set_piece_on_square(side, square, piece);
        self.state.zobrist.update_piece_hash(side, piece, square);
        proof {
            lemma_xor_algebra();
            assert forall|q: u8| q < 64 && q != square.0 implies #[trigger] o.spec_weight(q)
                == self.pieces.spec_weight(q) by {
                assert(self.pieces.spec_piece_at(q) == o.spec_piece_at(q));
            }
            lemma_hash_delta(o, self.pieces, square.0, 64);
            lemma_phase_delta(o, self.pieces, square.0, 64);
            assert(o.spec_weight(square.0) == 0);
            assert(self.pieces.spec_weight(square.0) == spec_phase_value(piece.0));
        }
    }

    /// Remove a piece and fold its seed back out of the incremental key.
    #[verifier::rlimit(10)]
    pub fn remove_piece_on_square(&mut self, side: Side, square: Square, piece: Piece)
        requires
            old(self).pieces.wf(),
            side.valid(),
            piece.valid(),
            square.on_board(),
            old(self).pieces.spec_piece_at(square.0) == piece.0,
            old(self).pieces.spec_color_at(square.0) == side.0,
            old(self).pieces.spec_occupied(square.0),
        ensures
            final(self).pieces == spec_remove(old(self).pieces, side.0, piece.0, square.0),
            final(self).pieces.wf(),
            final(self).state.zobrist.0 == old(self).state.zobrist.0 ^ spec_piece_seed(
                side.0,
                piece.0,
                square.0,
            ),
            old(self).hash_ok() ==> final(self).hash_ok(),
            final(self).pieces.spec_phase_sum() + spec_phase_value(piece.0) == old(
                self,
            ).pieces.spec_phase_sum(),
            final(self).pieces.spec_piece_mask(piece.0) == old(self).pieces.spec_piece_mask(
                piece.0,
            ) & !(1u64 << square.0),
            final(self).pieces.spec_side_occ(side.0) == old(self).pieces.spec_side_occ(side.0)
                & !(1u64 << square.0),
            forall|p: u8| p < 6 && p != piece.0 ==> final(self).pieces.spec_piece_mask(p) == old(
                self,
            ).pieces.spec_piece_mask(p),
            forall|s: u8| s < 2 && s != side.0 ==> final(self).pieces.spec_side_occ(s) == old(
                self,
            ).pieces.spec_side_occ(s),
            final(self).pieces.spec_piece_at(square.0) == NO_PIECE,
            !final(self).pieces.spec_occupied(square.0),
            forall|q: u8|
                q < 64 && q != square.0 ==> #[trigger] final(self).pieces.spec_piece_at(q) == old(
                    self,
                ).pieces.spec_piece_at(q) && final(self).pieces.spec_color_at(q) == old(
                    self,
                ).pieces.spec_color_at(q) && final(self).pieces.spec_occupied(q) == old(
                    self,
                ).pieces.spec_occupied(q),
            final(self).state.half_moves == old(self).state.half_moves,
            final(self).state.en_passant == old(self).state.en_passant,
            final(self).state.side_to_move == old(self).state.side_to_move,
            final(self).state.castle_rights == old(self).state.castle_rights,
            final(self).state.phase == old(self).state.phase,
    {
        let ghost o = self.pieces;
        self.pieces.remove_piece_on_square(side, square, piece);
        self.state.zobrist.update_piece_hash(side, piece, square);
        proof {
            lemma_xor_algebra();
            assert forall|q: u8| q < 64 && q != square.0 implies #[trigger] o.spec_weight(q)
                == self.pieces.spec_weight(q) by {
                assert(self.pieces.spec_piece_at(q) == o.spec_piece_at(q));
            }
            lemma_hash_delta(o, self.pieces, square.0, 64);
            lemma_phase_delta(o, self.pieces, square.0, 64);
            assert(o.spec_weight(square.0) == spec_phase_value(piece.0));
            assert(self.pieces.spec_weight(square.0) == 0);
        }
    }

    /// The full position key: placement hash plus castling, en-passant and
    /// side-to-move seeds.
    pub open spec fn spec_key(self) -> u64 {
        let a = self.state.zobrist.0 ^ crate::zobrist::spec_castle_seed(
            self.state.castle_rights.0,
        );
        let b = if self.state.en_passant.0 != 64 {
            a ^ crate::zobrist::spec_en_passant_seed((self.state.en_passant.0 % 8) as u8)
        } else {
            a
        };
        if self.stm() == BLACK {
            b ^ crate::zobrist::spec_side_seed()
        } else {
            b
        }
    }

    /// The full position key recomputed from scratch: the placement hash
    /// folded over every square, then the castling, en-passant and
    /// side-to-move seeds.
    pub open spec fn spec_scratch_key(self) -> u64 {
        let a = self.pieces.spec_piece_hash() ^ crate::zobrist::spec_castle_seed(
            self.state.castle_rights.0,
        );
        let c = if self.state.en_passant.0 != 64 {
            a ^ crate::zobrist::spec_en_passant_seed((self.state.en_passant.0 % 8) as u8)
        } else {
            a
        };
        if self.stm() == BLACK {
            c ^ crate::zobrist::spec_side_seed()
        } else {
            c
        }
    }

    /// The Zobrist key of the position as seen by repetition detection.
    pub fn get_key(&self) -> (r: ZobristKey)
        requires
            self.state.en_passant.0 == 64 || self.state.en_passant.0 < 64,
        ensures
            r.0 == self.spec_key(),
    {
        let mut key: u64 = self.state.zobrist.0 ^ ZobristKey::get_castle_rights_seed(
            self.state.castle_rights.0,
        );
        if self.state.en_passant.0 != 64 {
            key = key ^ ZobristKey::get_en_passant_seed(self.state.en_passant);
        }
        if self.state.side_to_move.0 == BLACK {
            key = key ^ ZobristKey::get_side_to_move_seed();
        }
        ZobristKey(key)
    }

    #[inline]
    pub fn en_passant_square(&self) -> (r: Square)
        ensures
            r == self.state.en_passant,
    {
        self.state.en_passant
    }

    #[inline]
    pub fn side_to_move(&self) -> (r: Side)
        ensures
            r == self.state.side_to_move,
    {
        self.state.side_to_move
    }

    #[inline]
    pub fn castle_rights(&self) -> (r: CastleRights)
        ensures
            r == self.state.castle_rights,
    {
        self.state.castle_rights
    }

    #[inline]
    pub fn half_move_counter(&self) -> (r: u8)
        ensures
            r == self.state.half_moves,
    {
        self.state.half_moves
    }

    #[inline]
    pub fn get_phase(&self) -> (r: u8)
        ensures
            r == self.state.phase,
    {
        self.state.phase
    }

    /// The material left cannot mate: at most minor-piece material, no pawns,
    /// and two minor pieces only as same-colored bishops split between the
    /// sides.
    pub open spec fn spec_insufficient(self) -> bool {
        let bishops = self.pieces.bishops.0;
        &&& self.state.phase <= 2
        &&& self.pieces.pawns.0 == 0
        &&& (self.state.phase != 2 || (bishops & self.pieces.white_occ.0 != bishops && bishops
            & self.pieces.black_occ.0 != bishops && (bishops & LIGHT_SQUARES == bishops || bishops
            & DARK_SQUARES == bishops)))
    }

    pub fn is_insufficient_material(&self) -> (r: bool)
        ensures
            r == self.spec_insufficient(),
    {
        let phase = self.state.phase;
        let bishops = self.pieces.bishops.0;
        phase <= 2 && self.pieces.pawns.0 == 0 && ((phase != 2) || (bishops
            & self.pieces.white_occ.0 != bishops && bishops & self.pieces.black_occ.0 != bishops
            && (bishops & LIGHT_SQUARES == bishops || bishops & DARK_SQUARES == bishops)))
    }
}

/// The empty piece placement.
pub open spec fn spec_empty_pieces() -> ChessBoardPieces {
    ChessBoardPieces {
        white_occ: Bitboard(0),
        black_occ: Bitboard(0),
        pawns: Bitboard(0),
        knights: Bitboard(0),
        bishops: Bitboard(0),
        rooks: Bitboard(0),
        queens: Bitboard(0),
        kings: Bitboard(0),
    }
}

/// The all-cleared scalar state.
pub open spec fn spec_cleared_state() -> ChessBoardState {
    ChessBoardState {
        zobrist: ZobristKey(0),
        half_moves: 0u8,
        en_passant: Square(64),
        side_to_move: Side(WHITE),
        castle_rights: CastleRights(0),
        phase: 0u8,
    }
}

impl Default for ChessBoardPieces {
    /// The empty piece placement.
    fn default() -> (r: Self)
        ensures
            r == (ChessBoardPieces {
                white_occ: Bitboard(0),
                black_occ: Bitboard(0),
                pawns: Bitboard(0),
                knights: Bitboard(0),
                bishops: Bitboard(0),
                rooks: Bitboard(0),
                queens: Bitboard(0),
                kings: Bitboard(0),
            }),
    {
        ChessBoardPieces {
            white_occ: Bitboard(0),
            black_occ: Bitboard(0),
            pawns: Bitboard(0),
            knights: Bitboard(0),
            bishops: Bitboard(0),
            rooks: Bitboard(0),
            queens: Bitboard(0),
            kings: Bitboard(0),
        }
    }
}

impl Default for ChessBoardState {
    /// The all-cleared scalar state: white to move, no rights, no en-passant.
    fn default() -> (r: Self)
        ensures
            r == (ChessBoardState {
                zobrist: ZobristKey(0),
                half_moves: 0u8,
                en_passant: Square(64),
                side_to_move: Side(WHITE),
                castle_rights: CastleRights(0),
                phase: 0u8,
            }),
    {
        ChessBoardState {
            zobrist: ZobristKey(0),
            half_moves: 0,
            en_passant: Square(64),
            side_to_move: Side(WHITE),
            castle_rights: CastleRights(0),
            phase: 0,
        }
    }
}

impl Default for ChessBoard {
    /// The empty board with cleared scalar state.
    fn default() -> (r: Self)
        ensures
            r.pieces == spec_empty_pieces(),
            r.state == spec_cleared_state(),
    {
        ChessBoard { pieces: ChessBoardPieces::default(), state: ChessBoardState::default() }
    }
}

/// The piece boards after a piece of `(side, piece)` enters square `sq`.
pub open spec fn spec_place(p: ChessBoardPieces, side: u8, piece: u8, sq: u8) -> ChessBoardPieces {
    let b = 1u64 << sq;
    let p1 = if piece == PAWN {
        ChessBoardPieces { pawns: Bitboard(p.pawns.0 | b), ..p }
    } else if piece == KNIGHT {
        ChessBoardPieces { knights: Bitboard(p.knights.0 | b), ..p }
    } else if piece == BISHOP {
        ChessBoardPieces { bishops: Bitboard(p.bishops.0 | b), ..p }
    } else if piece == ROOK {
        ChessBoardPieces { rooks: Bitboard(p.rooks.0 | b), ..p }
    } else if piece == QUEEN {
        ChessBoardPieces { queens: Bitboard(p.queens.0 | b), ..p }
    } else {
        ChessBoardPieces { kings: Bitboard(p.kings.0 | b), ..p }
    };
    if side == WHITE {
        ChessBoardPieces { white_occ: Bitboard(p1.white_occ.0 | b), ..p1 }
    } else {
        ChessBoardPieces { black_occ: Bitboard(p1.black_occ.0 | b), ..p1 }
    }
}

/// The piece boards after the piece of `(side, piece)` leaves square `sq`.
pub open spec fn spec_remove(p: ChessBoardPieces, side: u8, piece: u8, sq: u8) -> ChessBoardPieces {
    let b = !(1u64 << sq);
    let p1 = if piece == PAWN {
        ChessBoardPieces { pawns: Bitboard(p.pawns.0 & b), ..p }
    } else if piece == KNIGHT {
        ChessBoardPieces { knights: Bitboard(p.knights.0 & b), ..p }
    } else if piece == BISHOP {
        ChessBoardPieces { bishops: Bitboard(p.bishops.0 & b), ..p }
    } else if piece == ROOK {
        ChessBoardPieces { rooks: Bitboard(p.rooks.0 & b), ..p }
    } else if piece == QUEEN {
        ChessBoardPieces { queens: Bitboard(p.queens.0 & b), ..p }
    } else {
        ChessBoardPieces { kings: Bitboard(p.kings.0 & b), ..p }
    };
    if side == WHITE {
        ChessBoardPieces { white_occ: Bitboard(p1.white_occ.0 & b), ..p1 }
    } else {
        ChessBoardPieces { black_occ: Bitboard(p1.black_occ.0 & b), ..p1 }
    }
}

/// An occupied square contributes its weight to the phase sum.
pub proof fn lemma_phase_lower(b: ChessBoardPieces, s: u8, n: int)
    requires
        s < n <= 64,
    ensures
        b.spec_phase_upto(n) >= b.spec_weight(s),
    decreases n,
{
    if s < n - 1 {
        lemma_phase_lower(b, s, n - 1);
    }
}

/// With two distinct weight-zero squares (the kings), the phase sum stays
/// at least eight below the crude bound of four per square.
pub proof fn lemma_phase_upper(b: ChessBoardPieces, k1: u8, k2: u8, n: int)
    requires
        k1 < 64,
        k2 < 64,
        k1 != k2,
        b.spec_weight(k1) == 0,
        b.spec_weight(k2) == 0,
        0 <= n <= 64,
    ensures
        b.spec_phase_upto(n) + (if k1 < n { 4int } else { 0int }) + (if k2 < n { 4int } else { 0int }) <= 4 * n,
    decreases n,
{
    if n > 0 {
        lemma_phase_upper(b, k1, k2, n - 1);
        assert(spec_phase_value(b.spec_piece_at((n - 1) as u8)) <= 4);
    }
}

} // verus!
// The ChessBoard level: the full invariant and the hash-preserving mutators.
