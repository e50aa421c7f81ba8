//! The 4-bit castling-rights mask.
use vstd::prelude::*;
use crate::square::Square;

verus! {

#[derive(Copy, Clone, PartialEq, Eq, Structural, Debug)]
pub struct CastleRights(pub u8);

pub const WHITE_QUEEN_RIGHT: u8 = 0b1000;
pub const WHITE_KING_RIGHT: u8 = 0b0100;
pub const BLACK_QUEEN_RIGHT: u8 = 0b0010;
pub const BLACK_KING_RIGHT: u8 = 0b0001;

impl CastleRights {
    pub open spec fn valid(self) -> bool {
        self.0 < 16
    }

    pub open spec fn spec_has(self, right: u8) -> bool {
        self.0 & right != 0
    }

    #[inline]
    pub fn from_raw(raw: u8) -> (r: Self)
        ensures
            r.0 == raw,
    {
        CastleRights(raw)
    }

    #[inline]
    pub fn set_right(&mut self, right: CastleRights)
        ensures
            final(self).0 == old(self).0 | right.0,
    {
        self.0 = self.0 | right.0;
    }

    #[inline]
    pub fn remove_right(&mut self, right: CastleRights)
        ensures
            final(self).0 == old(self).0 & !right.0,
    {
        self.0 = self.0 & !right.0;
    }

    #[inline]
    pub fn has_right(&self, right: CastleRights) -> (r: bool)
        ensures
            r == self.spec_has(right.0),
    {
        self.0 & right.0 != 0
    }

    #[inline]
    pub fn get_raw(&self) -> (r: u8)
        ensures
            r == self.0,
    {
        self.0
    }

    /// Index of the lowest right bit set.
    #[inline]
    pub fn get_index(&self) -> (r: usize)
        ensures
            r == vstd::std_specs::bits::u8_trailing_zeros(self.0),
    {
        self.0.trailing_zeros() as usize
    }
}

impl Default for CastleRights {
    /// The default mask grants no rights.
    fn default() -> (r: Self)
        ensures
            r.0 == 0,
    {
        CastleRights(0)
    }
}

/// Which rights die when the given square is touched by a move: the four rook
/// home squares clear one bit each, the two king home squares clear both of
/// their side's bits.
pub open spec fn spec_rights_cleared_by(sq: u8) -> u8 {
    if sq == 0 {
        0b1000
    } else if sq == 4 {
        0b1100
    } else if sq == 7 {
        0b0100
    } else if sq == 56 {
        0b0010
    } else if sq == 60 {
        0b0011
    } else if sq == 63 {
        0b0001
    } else {
        0
    }
}

/// The castling-rights bits cleared when a move touches `sq`.
pub fn rights_cleared_by(sq: Square) -> (r: u8)
    ensures
        r == spec_rights_cleared_by(sq.0),
{
    match sq.0 {
        0 => 0b1000,
        4 => 0b1100,
        7 => 0b0100,
        56 => 0b0010,
        60 => 0b0011,
        63 => 0b0001,
        _ => 0,
    }
}

} // verus!
