//! The two sides: white (0) and black (1).
use vstd::prelude::*;

verus! {

#[derive(Copy, Clone, PartialEq, Eq, Structural, Debug)]
pub struct Side(pub u8);

pub const WHITE: u8 = 0;
pub const BLACK: u8 = 1;

impl Side {
    pub open spec fn valid(self) -> bool {
        self.0 < 2
    }

    pub open spec fn spec_flipped(self) -> Side {
        Side((1 - self.0) as u8)
    }

    pub open spec fn is_white(self) -> bool {
        self.0 == WHITE
    }

    #[inline]
    pub fn from_raw(value: u8) -> (r: Self)
        ensures
            r.0 == value,
    {
        Side(value)
    }

    #[inline]
    pub fn get_raw(&self) -> (r: u8)
        ensures
            r == self.0,
    {
        self.0
    }

    #[inline]
    pub fn get_flipped_value(&self) -> (r: u8)
        requires
            self.valid(),
        ensures
            r == 1 - self.0,
    {
        1 - self.0
    }

    #[inline]
    pub fn flipped(&self) -> (r: Self)
        requires
            self.valid(),
        ensures
            r == self.spec_flipped(),
            r.valid(),
    {
        Side(1 - self.0)
    }

    #[inline]
    pub fn mut_flip(&mut self)
        requires
            old(self).valid(),
        ensures
            *final(self) == old(self).spec_flipped(),
            final(self).valid(),
    {
        self.0 = 1 - self.0;
    }
}

impl Default for Side {
    /// The default side is white.
    fn default() -> (r: Self)
        ensures
            r.0 == WHITE,
    {
        Side(WHITE)
    }
}

} // verus!
