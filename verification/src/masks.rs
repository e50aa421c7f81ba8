//! Threat and pin analysis: attackers of a square, the opponent's attack map
//! with the defending king removed from the occupancy, the checkers mask, and
//! the two pin masks.
use vstd::prelude::*;
use crate::attacks::{
    spec_king_attacks, spec_knight_attacks, spec_pawn_attacks, Attacks,
};
use crate::bitboard::Bitboard;
use crate::bits::{bit64, clear_lsb64, lemma_clear_lsb_decreases, lemma_lsb, lsb64};
use crate::board::ChessBoard;
use crate::magics::{spec_bishop_attacks, spec_rook_attacks};
use crate::piece::{Piece, BISHOP, KING, KNIGHT, PAWN, QUEEN, ROOK};
use crate::rays::{spec_ray, Rays};
use crate::side::Side;
use crate::square::Square;

verus! {

/// Fold an attack function over the squares of `mask`, OR-ing into `acc`.
pub open spec fn spec_fold_or(f: spec_fn(u8) -> u64, mask: u64, acc: u64) -> u64
    decreases mask,
    via spec_fold_or_decreases
{
    if mask == 0 {
        acc
    } else {
        spec_fold_or(f, clear_lsb64(mask), acc | f(lsb64(mask) as u8))
    }
}

#[via_fn]
proof fn spec_fold_or_decreases(f: spec_fn(u8) -> u64, mask: u64, acc: u64) {
    lemma_clear_lsb_decreases(mask);
}

/// The pieces of `attacker` side that attack `square` under `occ`.
pub open spec fn spec_attackers_to(b: ChessBoard, defender: u8, occ: u64, sq: u8) -> u64 {
    ((spec_knight_attacks(sq) & b.pieces.knights.0) | (spec_king_attacks(sq) & b.pieces.kings.0) | (
    spec_pawn_attacks(defender, sq) & b.pieces.pawns.0) | (spec_rook_attacks(sq, occ)
        & (b.pieces.rooks.0 | b.pieces.queens.0)) | (spec_bishop_attacks(sq, occ)
        & (b.pieces.bishops.0 | b.pieces.queens.0))) & b.pieces.spec_side_occ((1 - defender) as u8)
}

/// The checkers of the side to move: opposing pieces attacking its king.
pub open spec fn spec_checkers(b: ChessBoard) -> u64 {
    spec_attackers_to(b, b.stm(), b.pieces.spec_all_occ(), b.spec_king_sq(b.stm()) as u8)
}

/// The attack map of the side not on `defender`'s side, computed with the
/// defending king removed from the occupancy.
pub open spec fn spec_attack_map(b: ChessBoard, defender: u8) -> u64 {
    let occ = b.pieces.spec_all_occ() ^ (1u64 << b.spec_king_sq(defender));
    let att = b.pieces.spec_side_occ((1 - defender) as u8);
    let a1 = spec_fold_or(
        |s: u8| spec_rook_attacks(s, occ),
        att & (b.pieces.rooks.0 | b.pieces.queens.0),
        0,
    );
    let a2 = spec_fold_or(
        |s: u8| spec_bishop_attacks(s, occ),
        att & (b.pieces.bishops.0 | b.pieces.queens.0),
        a1,
    );
    let a3 = spec_fold_or(|s: u8| spec_king_attacks(s), att & b.pieces.kings.0, a2);
    let a4 = spec_fold_or(|s: u8| spec_knight_attacks(s), att & b.pieces.knights.0, a3);
    spec_fold_or(
        |s: u8| spec_pawn_attacks((1 - defender) as u8, s),
        att & b.pieces.pawns.0,
        a4,
    )
}

/// The two pin masks of `defender`'s king: rays from the king to an opposing
/// slider holding exactly one defending piece in between.
pub open spec fn spec_pin_masks(b: ChessBoard, defender: u8) -> (u64, u64) {
    let king = b.spec_king_sq(defender) as u8;
    let docc = b.pieces.spec_side_occ(defender);
    let aocc = b.pieces.spec_side_occ((1 - defender) as u8);
    let diag_pinners = spec_bishop_attacks(king, aocc) & ((b.pieces.bishops.0 & aocc) | (
    b.pieces.queens.0 & aocc));
    let orto_pinners = spec_rook_attacks(king, aocc) & ((b.pieces.rooks.0 & aocc) | (
    b.pieces.queens.0 & aocc));
    let fd = spec_pin_f(king, docc);
    (spec_fold_or(fd, diag_pinners, 0), spec_fold_or(fd, orto_pinners, 0))
}

/// The contribution of one potential pinner: its king ray when exactly one
/// defending piece stands on it.
pub open spec fn spec_pin_f(king: u8, docc: u64) -> spec_fn(u8) -> u64 {
    |s: u8|
        if crate::board::one_bit64(spec_ray(king, s) & docc) {
            spec_ray(king, s)
        } else {
            0u64
        }
}

impl ChessBoard {
    /// All pieces of the side opposing `defender` that attack `square` with
    /// the given occupancy in the way.
    pub fn all_attackers_to_square(
        &self,
        atk: &Attacks,
        defender: Side,
        occupancy: Bitboard,
        square: Square,
    ) -> (r: Bitboard)
        requires
            atk.wf(),
            defender.valid(),
            square.on_board(),
        ensures
            r.0 == spec_attackers_to(*self, defender.0, occupancy.0, square.0),
    {
        let queens = self.pieces.queens.0;
        Bitboard(
            ((atk.get_knight_attacks_for_square(square).0 & self.pieces.knights.0) | (
            atk.get_king_attacks_for_square(square).0 & self.pieces.kings.0) | (
            atk.get_pawn_attacks_for_square(defender, square).0 & self.pieces.pawns.0) | (
            atk.get_rook_attacks_for_square(square, occupancy).0 & (self.pieces.rooks.0 | queens))
                | (atk.get_bishop_attacks_for_square(square, occupancy).0 & (self.pieces.bishops.0
                | queens))) & self.get_occupancy_for_side(defender.flipped()).0,
        )
    }

    /// Whether `square` is attacked by the side opposing `defender`, with an
    /// explicit occupancy.
    pub fn is_square_attacked_with_occupancy(
        &self,
        atk: &Attacks,
        defender: Side,
        square: Square,
        occupancy: Bitboard,
    ) -> (r: bool)
        requires
            atk.wf(),
            defender.valid(),
            square.on_board(),
        ensures
            r == (spec_attackers_to(*self, defender.0, occupancy.0, square.0) != 0),
    {
        self.all_attackers_to_square(atk, defender, occupancy, square).is_not_empty()
    }

    /// Whether `square` is attacked by the side opposing `defender`.
    pub fn is_square_attacked(&self, atk: &Attacks, defender: Side, square: Square) -> (r: bool)
        requires
            atk.wf(),
            defender.valid(),
            square.on_board(),
        ensures
            r == (spec_attackers_to(
                *self,
                defender.0,
                self.pieces.spec_all_occ(),
                square.0,
            ) != 0),
    {
        self.is_square_attacked_with_occupancy(atk, defender, square, self.get_occupancy())
    }

    /// Whether `square` is in a previously computed attack map.
    pub fn is_square_attacked_with_attack_map(&self, square: Square, attack_map: Bitboard) -> (r:
        bool)
        requires
            square.on_board(),
        ensures
            r == bit64(attack_map.0, square.0 as u64),
    {
        attack_map.get_bit(square)
    }

    /// Whether `defender`'s king is attacked.
    pub fn is_in_check(&self, atk: &Attacks, defender: Side) -> (r: bool)
        requires
            atk.wf(),
            defender.valid(),
            self.pieces.wf(),
            self.kings_ok(),
        ensures
            r == (spec_attackers_to(
                *self,
                defender.0,
                self.pieces.spec_all_occ(),
                self.spec_king_sq(defender.0) as u8,
            ) != 0),
    {
        let king = self.get_king_square(defender);
        self.is_square_attacked(atk, defender, king)
    }

    /// The opposing pieces that currently check the side to move's king.
    pub fn generate_checkers_mask(&self, atk: &Attacks) -> (r: Bitboard)
        requires
            atk.wf(),
            self.pieces.wf(),
            self.kings_ok(),
            self.state.side_to_move.valid(),
        ensures
            r.0 == spec_checkers(*self),
    {
        let stm = self.side_to_move();
        self.all_attackers_to_square(atk, stm, self.get_occupancy(), self.get_king_square(stm))
    }

    /// The attack map of the opponent of `defender`, with `defender`'s king
    /// removed from the occupancy so sliders see through it.
    pub fn generate_attack_map(&self, atk: &Attacks, defender: Side) -> (r: Bitboard)
        requires
            atk.wf(),
            defender.valid(),
            self.pieces.wf(),
            self.kings_ok(),
        ensures
            r.0 == spec_attack_map(*self, defender.0),
    {
        let king_square = self.get_king_square(defender);
        let occ = Bitboard(self.get_occupancy().0 ^ (1u64 << king_square.0));
        let attacker = defender.flipped();
        let att = self.get_occupancy_for_side(attacker).0;
        let mut threats: u64 = 0;

        let ghost f1 = |s: u8| spec_rook_attacks(s, occ.0);
        let mut bb = Bitboard(att & (self.pieces.rooks.0 | self.pieces.queens.0));
        let ghost bb1 = bb.0;
        while bb.0 != 0
            invariant
                atk.wf(),
                spec_fold_or(f1, bb.0, threats) == spec_fold_or(f1, bb1, 0),
                f1 == (|s: u8| spec_rook_attacks(s, occ.0)),
            decreases bb.0,
        {
            proof {
                lemma_clear_lsb_decreases(bb.0);
            }
            let s = bb.pop_ls1b_square();
            threats = threats | atk.get_rook_attacks_for_square(s, occ).0;
        }

        let ghost f2 = |s: u8| spec_bishop_attacks(s, occ.0);
        let mut bb = Bitboard(att & (self.pieces.bishops.0 | self.pieces.queens.0));
        let ghost bb2 = bb.0;
        let ghost t2 = threats;
        while bb.0 != 0
            invariant
                atk.wf(),
                spec_fold_or(f2, bb.0, threats) == spec_fold_or(f2, bb2, t2),
                f2 == (|s: u8| spec_bishop_attacks(s, occ.0)),
            decreases bb.0,
        {
            proof {
                lemma_clear_lsb_decreases(bb.0);
            }
            let s = bb.pop_ls1b_square();
            threats = threats | atk.get_bishop_attacks_for_square(s, occ).0;
        }

        let ghost f3 = |s: u8| spec_king_attacks(s);
        let mut bb = Bitboard(att & self.pieces.kings.0);
        let ghost bb3 = bb.0;
        let ghost t3 = threats;
        while bb.0 != 0
            invariant
                atk.wf(),
                spec_fold_or(f3, bb.0, threats) == spec_fold_or(f3, bb3, t3),
                f3 == (|s: u8| spec_king_attacks(s)),
            decreases bb.0,
        {
            proof {
                lemma_clear_lsb_decreases(bb.0);
            }
            let s = bb.pop_ls1b_square();
            threats = threats | atk.get_king_attacks_for_square(s).0;
        }

        let ghost f4 = |s: u8| spec_knight_attacks(s);
        let mut bb = Bitboard(att & self.pieces.knights.0);
        let ghost bb4 = bb.0;
        let ghost t4 = threats;
        while bb.0 != 0
            invariant
                atk.wf(),
                spec_fold_or(f4, bb.0, threats) == spec_fold_or(f4, bb4, t4),
                f4 == (|s: u8| spec_knight_attacks(s)),
            decreases bb.0,
        {
            proof {
                lemma_clear_lsb_decreases(bb.0);
            }
            let s = bb.pop_ls1b_square();
            threats = threats | atk.get_knight_attacks_for_square(s).0;
        }

        let ghost f5 = |s: u8| spec_pawn_attacks(attacker.0, s);
        let mut bb = Bitboard(att & self.pieces.pawns.0);
        let ghost bb5 = bb.0;
        let ghost t5 = threats;
        while bb.0 != 0
            invariant
                atk.wf(),
                attacker.valid(),
                spec_fold_or(f5, bb.0, threats) == spec_fold_or(f5, bb5, t5),
                f5 == (|s: u8| spec_pawn_attacks(attacker.0, s)),
            decreases bb.0,
        {
            proof {
                lemma_clear_lsb_decreases(bb.0);
            }
            let s = bb.pop_ls1b_square();
            threats = threats | atk.get_pawn_attacks_for_square(attacker, s).0;
        }

        Bitboard(threats)
    }

    /// The diagonal and orthogonal pin masks of `defender`'s king.
    pub fn generate_pin_masks(&self, atk: &Attacks, defender: Side) -> (r: (Bitboard, Bitboard))
        requires
            atk.wf(),
            defender.valid(),
            self.pieces.wf(),
            self.kings_ok(),
        ensures
            r.0.0 == spec_pin_masks(*self, defender.0).0,
            r.1.0 == spec_pin_masks(*self, defender.0).1,
    {
        let king_square = self.get_king_square(defender);
        let attacker = defender.flipped();
        let defender_occupancy = self.get_occupancy_for_side(defender);
        let attacker_occupancy = self.get_occupancy_for_side(attacker);
        let queens = self.get_piece_mask_for_side(Piece(QUEEN), attacker);

        let ghost fd = spec_pin_f(king_square.0, defender_occupancy.0);

        let mut diag = Bitboard(
            atk.get_bishop_attacks_for_square(king_square, attacker_occupancy).0 & (
            self.get_piece_mask_for_side(Piece(BISHOP), attacker).0 | queens.0),
        );
        let ghost d0 = diag.0;
        let mut diag_result: u64 = 0;
        while diag.0 != 0
            invariant
                atk.wf(),
                king_square.on_board(),
                spec_fold_or(fd, diag.0, diag_result) == spec_fold_or(fd, d0, 0),
                fd == spec_pin_f(king_square.0, defender_occupancy.0),
            decreases diag.0,
        {
            proof {
                lemma_clear_lsb_decreases(diag.0);
                crate::bits::lemma_or_algebra();
            }
            let s = diag.pop_ls1b_square();
            let ray = Rays::get_ray(king_square, s);
            proof {
                assert(fd(s.0) == (if crate::board::one_bit64(ray.0 & defender_occupancy.0) {
                    ray.0
                } else {
                    0u64
                }));
            }
            if Bitboard(ray.0 & defender_occupancy.0).only_one_bit() {
                diag_result = diag_result | ray.0;
            }
        }

        let mut orto = Bitboard(
            atk.get_rook_attacks_for_square(king_square, attacker_occupancy).0 & (
            self.get_piece_mask_for_side(Piece(ROOK), attacker).0 | queens.0),
        );
        let ghost o0 = orto.0;
        let mut orto_result: u64 = 0;
        while orto.0 != 0
            invariant
                atk.wf(),
                king_square.on_board(),
                spec_fold_or(fd, orto.0, orto_result) == spec_fold_or(fd, o0, 0),
                fd == spec_pin_f(king_square.0, defender_occupancy.0),
            decreases orto.0,
        {
            proof {
                lemma_clear_lsb_decreases(orto.0);
                crate::bits::lemma_or_algebra();
            }
            let s = orto.pop_ls1b_square();
            let ray = Rays::get_ray(king_square, s);
            proof {
                assert(fd(s.0) == (if crate::board::one_bit64(ray.0 & defender_occupancy.0) {
                    ray.0
                } else {
                    0u64
                }));
            }
            if Bitboard(ray.0 & defender_occupancy.0).only_one_bit() {
                orto_result = orto_result | ray.0;
            }
        }

        proof {
            assert(diag_result == spec_pin_masks(*self, defender.0).0);
            assert(orto_result == spec_pin_masks(*self, defender.0).1);
        }
        (Bitboard(diag_result), Bitboard(orto_result))
    }
}

} // verus!
