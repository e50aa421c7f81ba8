//! 64-bit position fingerprints built by XOR-ing per-feature seeds.
//!
//! Seeds are derived deterministically from a feature index by a 64-bit
//! mixing function, so the incremental key and a from-scratch recomputation
//! agree by construction.
use vstd::prelude::*;
use crate::castle_rights::CastleRights;
use crate::piece::Piece;
use crate::side::Side;
use crate::square::Square;

verus! {

#[derive(Copy, Clone, PartialEq, Eq, Structural, Debug)]
pub struct ZobristKey(pub u64);

/// The 64-bit finalizer of splitmix64, applied to a feature index.
/// Opaque: proofs treat the seeds as opaque values; only the executable
/// mixer reveals the formula.
#[verifier::opaque]
pub open spec fn spec_mix(x: u64) -> u64 {
    let a = x.wrapping_add(0x9E37_79B9_7F4A_7C15);
    let b = (a ^ (a >> 30)).wrapping_mul(0xBF58_476D_1CE4_E5B9);
    let c = (b ^ (b >> 27)).wrapping_mul(0x94D0_49BB_1331_11EB);
    c ^ (c >> 31)
}

fn mix(x: u64) -> (r: u64)
    ensures
        r == spec_mix(x),
{
    proof {
        reveal(spec_mix);
    }
    let a = x.wrapping_add(0x9E37_79B9_7F4A_7C15);
    let b = (a ^ (a >> 30u64)).wrapping_mul(0xBF58_476D_1CE4_E5B9);
    let c = (b ^ (b >> 27u64)).wrapping_mul(0x94D0_49BB_1331_11EB);
    c ^ (c >> 31u64)
}

/// Seed for a (side, piece, square) placement feature.
pub open spec fn spec_piece_seed(side: u8, piece: u8, sq: u8) -> u64 {
    spec_mix(((side as u64) * 384 + (piece as u64) * 64 + sq as u64) as u64)
}

/// Seed for an en-passant target on the given file.
pub open spec fn spec_en_passant_seed(file: u8) -> u64 {
    spec_mix((768 + file as u64) as u64)
}

/// Seed for a castling-rights mask.
pub open spec fn spec_castle_seed(mask: u8) -> u64 {
    spec_mix((776 + mask as u64) as u64)
}

/// Seed toggled in when black is to move.
pub open spec fn spec_side_seed() -> u64 {
    spec_mix(792)
}

impl ZobristKey {
    #[inline]
    pub fn get_raw(&self) -> (r: u64)
        ensures
            r == self.0,
    {
        self.0
    }

    /// Toggle the placement seed of `(side, piece, square)` in or out.
    #[inline]
    pub fn update_piece_hash(&mut self, side: Side, piece: Piece, square: Square)
        requires
            side.valid(),
            piece.valid(),
            square.on_board(),
        ensures
            final(self).0 == old(self).0 ^ spec_piece_seed(side.0, piece.0, square.0),
    {
        self.0 = self.0 ^ mix(
            (side.0 as u64) * 384 + (piece.0 as u64) * 64 + square.0 as u64,
        );
    }

    /// Seed for an en-passant target square, keyed by its file.
    #[inline]
    pub fn get_en_passant_seed(square: Square) -> (r: u64)
        requires
            square.on_board(),
        ensures
            r == spec_en_passant_seed(square.spec_file()),
    {
        mix(768 + (square.0 % 8) as u64)
    }

    /// Seed for the given castling-rights mask.
    #[inline]
    pub fn get_castle_rights_seed(mask: u8) -> (r: u64)
        ensures
            r == spec_castle_seed(mask),
    {
        mix(776 + mask as u64)
    }

    /// Seed XOR-ed in when black is to move.
    #[inline]
    pub fn get_side_to_move_seed() -> (r: u64)
        ensures
            r == spec_side_seed(),
    {
        mix(792)
    }
}

impl Default for ZobristKey {
    /// The key of an empty feature set.
    fn default() -> (r: Self)
        ensures
            r.0 == 0,
    {
        ZobristKey(0)
    }
}

/// XOR is associative, commutative, self-inverse, and has 0 as identity.
pub proof fn lemma_xor_algebra()
    by (bit_vector)
    ensures
        forall|a: u64, b: u64| #[trigger] (a ^ b) == b ^ a,
        forall|a: u64, b: u64, c: u64| #[trigger] ((a ^ b) ^ c) == a ^ (b ^ c),
        forall|a: u64| #[trigger] (a ^ 0) == a,
        forall|a: u64| #[trigger] (a ^ a) == 0,
{
}

} // verus!
