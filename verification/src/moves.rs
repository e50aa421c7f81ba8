//! A move packed into 16 bits: 6 bits from-square, 4 bits flag, 6 bits to-square.
use vstd::prelude::*;
use crate::piece::Piece;
use crate::square::Square;

verus! {

/// Namespace for the 4-bit move flags. Values 6 and 7 are unused.
pub struct MoveFlag;

pub const QUIET_MOVE: u16 = 0;
pub const DOUBLE_PUSH: u16 = 1;
pub const KING_SIDE_CASTLE: u16 = 2;
pub const QUEEN_SIDE_CASTLE: u16 = 3;
pub const CAPTURE: u16 = 4;
pub const EN_PASSANT: u16 = 5;
pub const KNIGHT_PROMOTION: u16 = 8;
pub const BISHOP_PROMOTION: u16 = 9;
pub const ROOK_PROMOTION: u16 = 10;
pub const QUEEN_PROMOTION: u16 = 11;
pub const KNIGHT_PROMOTION_CAPTURE: u16 = 12;
pub const BISHOP_PROMOTION_CAPTURE: u16 = 13;
pub const ROOK_PROMOTION_CAPTURE: u16 = 14;
pub const QUEEN_PROMOTION_CAPTURE: u16 = 15;

#[derive(Copy, Clone, PartialEq, Eq, Structural, Debug)]
pub struct Move(pub u16);

impl Move {
    pub open spec fn spec_from(self) -> u8 {
        (self.0 & 63) as u8
    }

    pub open spec fn spec_to(self) -> u8 {
        (self.0 >> 10) as u8
    }

    pub open spec fn spec_flag(self) -> u16 {
        (self.0 >> 6) & 15
    }

    pub open spec fn spec_is_capture(self) -> bool {
        self.spec_flag() & CAPTURE != 0
    }

    pub open spec fn spec_is_promotion(self) -> bool {
        self.spec_flag() & KNIGHT_PROMOTION != 0
    }

    /// The piece kind a promotion move promotes to.
    pub open spec fn spec_promotion_piece(self) -> u8 {
        ((self.spec_flag() & 3) + 1) as u8
    }

    /// The packed value of a move with the given parts.
    pub open spec fn spec_pack(from: u8, to: u8, flag: u16) -> u16 {
        ((to as u16) << 10 | flag << 6 | from as u16) as u16
    }

    #[inline]
    pub fn from_raw(value: u16) -> (r: Self)
        ensures
            r.0 == value,
    {
        Move(value)
    }

    #[inline]
    pub fn from_squares(from_square: Square, to_square: Square, flag: u16) -> (r: Self)
        requires
            from_square.on_board(),
            to_square.on_board(),
            flag < 16,
        ensures
            r.0 == Move::spec_pack(from_square.0, to_square.0, flag),
            r.spec_from() == from_square.0,
            r.spec_to() == to_square.0,
            r.spec_flag() == flag,
    {
        proof {
            lemma_move_pack(from_square.0, to_square.0, flag);
        }
        Move((to_square.0 as u16) << 10u16 | flag << 6u16 | from_square.0 as u16)
    }

    #[inline]
    pub fn get_value(&self) -> (r: u16)
        ensures
            r == self.0,
    {
        self.0
    }

    #[inline]
    pub fn get_from_square(&self) -> (r: Square)
        ensures
            r.0 == self.spec_from(),
            r.on_board(),
    {
        proof {
            let v = self.0;
            assert((v & 63) < 64) by (bit_vector);
        }
        Square((self.0 & 63) as u8)
    }

    #[inline]
    pub fn get_to_square(&self) -> (r: Square)
        ensures
            r.0 == self.spec_to(),
            r.on_board(),
    {
        proof {
            let v = self.0;
            assert((v >> 10u16) < 64) by (bit_vector);
        }
        Square((self.0 >> 10u16) as u8)
    }

    #[inline]
    pub fn get_flag(&self) -> (r: u16)
        ensures
            r == self.spec_flag(),
            r < 16,
    {
        proof {
            let v = self.0;
            assert((v >> 10u16) < 64 && ((v >> 6u16) & 15) < 16) by (bit_vector);
        }
        (self.0 >> 6u16) & 15
    }

    #[inline]
    pub fn is_capture(&self) -> (r: bool)
        ensures
            r == self.spec_is_capture(),
    {
        self.get_flag() & CAPTURE > 0
    }

    #[inline]
    pub fn is_en_passant(&self) -> (r: bool)
        ensures
            r == (self.spec_flag() == EN_PASSANT),
    {
        self.get_flag() == EN_PASSANT
    }

    #[inline]
    pub fn is_promotion(&self) -> (r: bool)
        ensures
            r == self.spec_is_promotion(),
    {
        self.get_flag() & KNIGHT_PROMOTION > 0
    }

    /// For a promotion flag, the promoted piece kind (knight..queen).
    #[inline]
    pub fn get_promotion_piece(&self) -> (r: Piece)
        ensures
            r.0 == self.spec_promotion_piece(),
            1 <= r.0 <= 4,
    {
        let flag = self.get_flag();
        proof {
            assert(flag & 3 < 4) by (bit_vector);
        }
        Piece(((flag & 3) + 1) as u8)
    }
}

/// Packing a move and reading its parts back are inverse operations.
proof fn lemma_move_pack(from: u8, to: u8, flag: u16)
    by (bit_vector)
    requires
        from < 64,
        to < 64,
        flag < 16,
    ensures
        (((to as u16) << 10u16 | flag << 6u16 | from as u16) & 63) as u8 == from,
        (((to as u16) << 10u16 | flag << 6u16 | from as u16) >> 10u16) as u8 == to,
        (((to as u16) << 10u16 | flag << 6u16 | from as u16) >> 6u16) & 15 == flag,
{
}

/// The all-zero move used as a sentinel.
pub fn null_move() -> (r: Move)
    ensures
        r.0 == 0,
{
    Move(0)
}

} // verus!
