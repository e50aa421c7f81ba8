//! Piece kinds; the ordinal values double as table indices.
use vstd::prelude::*;

verus! {

#[derive(Copy, Clone, PartialEq, Eq, Structural, Debug)]
pub struct Piece(pub u8);

pub const PAWN: u8 = 0;
pub const KNIGHT: u8 = 1;
pub const BISHOP: u8 = 2;
pub const ROOK: u8 = 3;
pub const QUEEN: u8 = 4;
pub const KING: u8 = 5;
pub const NO_PIECE: u8 = 255;

impl Piece {
    /// A real piece kind (not the NONE sentinel).
    pub open spec fn valid(self) -> bool {
        self.0 < 6
    }

    #[inline]
    pub fn from_raw(value: u8) -> (r: Self)
        ensures
            r.0 == value,
    {
        Piece(value)
    }

    #[inline]
    pub fn get_raw(&self) -> (r: u8)
        ensures
            r == self.0,
    {
        self.0
    }

    #[inline]
    pub fn is_none(&self) -> (r: bool)
        ensures
            r == (self.0 == NO_PIECE),
    {
        self.0 == NO_PIECE
    }

    /// The lower-case letter naming the piece kind; a space for the sentinel.
    pub fn to_char(&self) -> (r: char)
        ensures
            r == spec_piece_char(self.0),
    {
        match self.0 {
            PAWN => 'p',
            KNIGHT => 'n',
            BISHOP => 'b',
            ROOK => 'r',
            QUEEN => 'q',
            KING => 'k',
            _ => ' ',
        }
    }
}

pub open spec fn spec_piece_char(p: u8) -> char {
    if p == PAWN {
        'p'
    } else if p == KNIGHT {
        'n'
    } else if p == BISHOP {
        'b'
    } else if p == ROOK {
        'r'
    } else if p == QUEEN {
        'q'
    } else if p == KING {
        'k'
    } else {
        ' '
    }
}

/// The material weight of each piece kind, used for the phase counter.
pub open spec fn spec_phase_value(p: u8) -> u8 {
    if p == KNIGHT || p == BISHOP {
        1
    } else if p == ROOK {
        2
    } else if p == QUEEN {
        4
    } else {
        0
    }
}

/// The per-piece-kind weights {0,1,1,2,4,0} summed into the phase counter.
pub fn phase_value(p: Piece) -> (r: u8)
    ensures
        r == spec_phase_value(p.0),
{
    if p.0 == KNIGHT || p.0 == BISHOP {
        1
    } else if p.0 == ROOK {
        2
    } else if p.0 == QUEEN {
        4
    } else {
        0
    }
}

} // verus!
