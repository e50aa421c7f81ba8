//! Board squares: indices 0..=63 (rank-major, a1 = 0, h8 = 63) plus a NULL sentinel (64).
use vstd::prelude::*;

verus! {

#[derive(Copy, Clone, PartialEq, Eq, Structural, Debug)]
pub struct Square(pub u8);

pub const NULL_SQUARE: u8 = 64;

impl Square {
    /// The square is on the board (not the NULL sentinel).
    pub open spec fn on_board(self) -> bool {
        self.0 < 64
    }

    pub open spec fn spec_rank(self) -> u8 {
        self.0 / 8
    }

    pub open spec fn spec_file(self) -> u8 {
        self.0 % 8
    }

    #[inline]
    pub fn from_raw(value: u8) -> (r: Self)
        ensures
            r.0 == value,
    {
        Square(value)
    }

    #[inline]
    pub fn from_coords(rank: u8, file: u8) -> (r: Self)
        requires
            rank < 8,
            file < 8,
        ensures
            r.0 == rank * 8 + file,
            r.on_board(),
            r.spec_rank() == rank,
            r.spec_file() == file,
    {
        Square(rank * 8 + file)
    }

    #[inline]
    pub fn get_raw(&self) -> (r: u8)
        ensures
            r == self.0,
    {
        self.0
    }

    #[inline]
    pub fn get_rank(&self) -> (r: u8)
        ensures
            r == self.spec_rank(),
    {
        self.0 / 8
    }

    #[inline]
    pub fn get_file(&self) -> (r: u8)
        ensures
            r == self.spec_file(),
    {
        self.0 % 8
    }

    #[inline]
    pub fn equals(&self, rhs: Square) -> (r: bool)
        ensures
            r == (self.0 == rhs.0),
    {
        self.0 == rhs.0
    }

    #[inline]
    pub fn is_null(&self) -> (r: bool)
        ensures
            r == (self.0 == NULL_SQUARE),
    {
        self.0 == NULL_SQUARE
    }

    /// Mirror the square vertically (swap ranks, keep the file).
    #[inline]
    pub fn flip(&self) -> (r: Self)
        requires
            self.on_board(),
        ensures
            r.0 == self.0 ^ 56,
            r.on_board(),
    {
        proof {
            let v = self.0;
            assert(v < 64 ==> (v ^ 56) < 64) by (bit_vector);
        }
        Square(self.0 ^ 56)
    }

    /// The square `shift` places up the board (toward h8).
    #[inline]
    pub fn shift_left(&self, shift: u8) -> (r: Self)
        requires
            self.0 + shift < 64,
        ensures
            r.0 == self.0 + shift,
            r.on_board(),
    {
        Square(self.0 + shift)
    }

    /// The square `shift` places down the board (toward a1).
    #[inline]
    pub fn shift_right(&self, shift: u8) -> (r: Self)
        requires
            self.on_board(),
            shift <= self.0,
        ensures
            r.0 == self.0 - shift,
            r.on_board(),
    {
        Square(self.0 - shift)
    }
}

impl Default for Square {
    /// The default square is the NULL sentinel.
    fn default() -> (r: Self)
        ensures
            r.0 == NULL_SQUARE,
    {
        Square(NULL_SQUARE)
    }
}

} // verus!
