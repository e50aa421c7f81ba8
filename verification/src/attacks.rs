//! Attack sets of the non-sliding pieces, computed from shift masks, and the
//! facade over all per-piece attack tables.
use vstd::prelude::*;
use crate::bitboard::{Bitboard, FILE_A, FILE_B, FILE_G, FILE_H};
use crate::bits::bit64;
use crate::magics::{BishopAttacks, RookAttacks};
use crate::side::Side;
use crate::square::Square;

verus! {

/// King attack set: the up-to-eight neighbouring squares.
pub open spec fn spec_king_attacks(s: u8) -> u64 {
    let b = 1u64 << s;
    (((b << 7) | (b >> 9) | (b >> 1)) & !FILE_H) | (((b << 9) | (b >> 7) | (b << 1)) & !FILE_A) | (
    b << 8) | (b >> 8)
}

/// Knight attack set: the up-to-eight knight-jump targets.
pub open spec fn spec_knight_attacks(s: u8) -> u64 {
    let b = 1u64 << s;
    (((b << 17) | (b >> 15)) & !FILE_A) | (((b << 15) | (b >> 17)) & !FILE_H) | (((b << 10) | (b
        >> 6)) & !(FILE_A | FILE_B)) | (((b << 6) | (b >> 10)) & !(FILE_G | FILE_H))
}

/// Pawn capture targets: one rank forward for the given side, one file aside.
pub open spec fn spec_pawn_attacks(side: u8, s: u8) -> u64 {
    let b = 1u64 << s;
    if side == 0 {
        ((b << 9) & !FILE_A) | ((b << 7) & !FILE_H)
    } else {
        ((b >> 7) & !FILE_A) | ((b >> 9) & !FILE_H)
    }
}

/// A pawn attack target sits one rank ahead on an adjacent file; in
/// particular it never equals the square straight ahead or behind.
pub proof fn lemma_pawn_attack_geometry(side: u8, s: u64, t: u64)
    by (bit_vector)
    requires
        side < 2,
        s < 64,
    ensures
        bit64(spec_pawn_attacks(side, s as u8), t) ==> t != (s ^ 8),
        bit64(spec_pawn_attacks(side, s as u8), t) ==> t < 64 && (if side == 0 {
            t / 8 == s / 8 + 1
        } else {
            t / 8 + 1 == s / 8
        }),
        bit64(spec_pawn_attacks(side, s as u8), t) ==> (bit64(
            spec_pawn_attacks((1 - side) as u8, t as u8),
            s,
        )),
{
}

pub struct KingAttacks;

impl KingAttacks {
    /// The attack set of a king on the given square.
    pub fn attacks_for_square(square: Square) -> (r: Bitboard)
        requires
            square.on_board(),
        ensures
            r.0 == spec_king_attacks(square.0),
    {
        let b = 1u64 << square.0;
        Bitboard(
            (((b << 7u64) | (b >> 9u64) | (b >> 1u64)) & !FILE_H) | (((b << 9u64) | (b >> 7u64) | (
            b << 1u64)) & !FILE_A) | (b << 8u64) | (b >> 8u64),
        )
    }
}

pub struct KnightAttacks;

impl KnightAttacks {
    /// The attack set of a knight on the given square.
    pub fn attacks_for_square(square: Square) -> (r: Bitboard)
        requires
            square.on_board(),
        ensures
            r.0 == spec_knight_attacks(square.0),
    {
        let b = 1u64 << square.0;
        Bitboard(
            (((b << 17u64) | (b >> 15u64)) & !FILE_A) | (((b << 15u64) | (b >> 17u64)) & !FILE_H)
                | (((b << 10u64) | (b >> 6u64)) & !(FILE_A | FILE_B)) | (((b << 6u64) | (b
                >> 10u64)) & !(FILE_G | FILE_H)),
        )
    }
}

pub struct PawnsAttacks;

impl PawnsAttacks {
    /// The capture targets of a pawn of the given side on the given square.
    pub fn attacks_for_square(side: Side, square: Square) -> (r: Bitboard)
        requires
            side.valid(),
            square.on_board(),
        ensures
            r.0 == spec_pawn_attacks(side.0, square.0),
    {
        let b = 1u64 << square.0;
        if side.0 == 0 {
            Bitboard(((b << 9u64) & !FILE_A) | ((b << 7u64) & !FILE_H))
        } else {
            Bitboard(((b >> 7u64) & !FILE_A) | ((b >> 9u64) & !FILE_H))
        }
    }
}

/// The derived attack tables: non-sliding attacks are computed on demand, the
/// sliding tables are built once when this value is created.
pub struct Attacks {
    pub bishop: BishopAttacks,
    pub rook: RookAttacks,
}

impl Attacks {
    pub open spec fn wf(self) -> bool {
        self.bishop.wf() && self.rook.wf()
    }

    /// Build the sliding-piece tables.
    pub fn new() -> (r: Attacks)
        ensures
            r.wf(),
    {
        Attacks { bishop: BishopAttacks::new(), rook: RookAttacks::new() }
    }

    #[inline]
    pub fn get_king_attacks_for_square(&self, square: Square) -> (r: Bitboard)
        requires
            square.on_board(),
        ensures
            r.0 == spec_king_attacks(square.0),
    {
        KingAttacks::attacks_for_square(square)
    }

    #[inline]
    pub fn get_knight_attacks_for_square(&self, square: Square) -> (r: Bitboard)
        requires
            square.on_board(),
        ensures
            r.0 == spec_knight_attacks(square.0),
    {
        KnightAttacks::attacks_for_square(square)
    }

    #[inline]
    pub fn get_pawn_attacks_for_square(&self, side: Side, square: Square) -> (r: Bitboard)
        requires
            side.valid(),
            square.on_board(),
        ensures
            r.0 == spec_pawn_attacks(side.0, square.0),
    {
        PawnsAttacks::attacks_for_square(side, square)
    }

    #[inline]
    pub fn get_bishop_attacks_for_square(&self, square: Square, occupancy: Bitboard) -> (r:
        Bitboard)
        requires
            self.wf(),
            square.on_board(),
        ensures
            r.0 == crate::magics::spec_bishop_attacks(square.0, occupancy.0),
    {
        self.bishop.get_bishop_attacks(square, occupancy)
    }

    #[inline]
    pub fn get_rook_attacks_for_square(&self, square: Square, occupancy: Bitboard) -> (r: Bitboard)
        requires
            self.wf(),
            square.on_board(),
        ensures
            r.0 == crate::magics::spec_rook_attacks(square.0, occupancy.0),
    {
        self.rook.get_rook_attacks(square, occupancy)
    }
}

} // verus!
