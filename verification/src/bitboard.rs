//! A 64-bit set of squares, one bit per square.
use vstd::prelude::*;
use crate::bits::{bit64, clear_lsb64, lemma_lsb, lsb64, popcnt64};
use crate::square::Square;

verus! {

#[derive(Copy, Clone, PartialEq, Eq, Structural, Debug)]
pub struct Bitboard(pub u64);

pub const RANK_1: u64 = 0x0000_0000_0000_00FF;
pub const RANK_2: u64 = 0x0000_0000_0000_FF00;
pub const RANK_3: u64 = 0x0000_0000_00FF_0000;
pub const RANK_4: u64 = 0x0000_0000_FF00_0000;
pub const RANK_5: u64 = 0x0000_00FF_0000_0000;
pub const RANK_6: u64 = 0x0000_FF00_0000_0000;
pub const RANK_7: u64 = 0x00FF_0000_0000_0000;
pub const RANK_8: u64 = 0xFF00_0000_0000_0000;

pub const FILE_A: u64 = 0x0101_0101_0101_0101;
pub const FILE_B: u64 = 0x0202_0202_0202_0202;
pub const FILE_G: u64 = 0x4040_4040_4040_4040;
pub const FILE_H: u64 = 0x8080_8080_8080_8080;

pub const FULL_BOARD: u64 = 0xFFFF_FFFF_FFFF_FFFF;

impl Bitboard {
    /// The square is a member of this set.
    pub open spec fn has(self, sq: u64) -> bool {
        bit64(self.0, sq)
    }

    #[inline]
    pub fn from_raw(value: u64) -> (r: Self)
        ensures
            r.0 == value,
    {
        Bitboard(value)
    }

    #[inline]
    pub fn get_raw(&self) -> (r: u64)
        ensures
            r == self.0,
    {
        self.0
    }

    /// Number of set bits.
    pub fn pop_count(&self) -> (r: u32)
        ensures
            r == popcnt64(self.0),
    {
        let mut b: u64 = self.0;
        let mut count: u32 = 0;
        proof {
            lemma_popcnt_le_64(self.0);
        }
        while b != 0
            invariant
                count + popcnt64(b) == popcnt64(self.0),
                popcnt64(self.0) <= 64,
            decreases b,
        {
            count = count + (b % 2) as u32;
            b = b / 2;
        }
        count
    }

    /// The square of the least significant set bit; NULL when empty.
    #[inline]
    pub fn ls1b_square(&self) -> (r: Square)
        ensures
            r.0 == lsb64(self.0),
            self.0 != 0 ==> r.on_board() && self.has(r.0 as u64),
            self.0 == 0 ==> r.0 == 64,
    {
        proof {
            lemma_lsb(self.0);
        }
        Square(self.0.trailing_zeros() as u8)
    }

    #[inline]
    pub fn set_bit(&mut self, square: Square)
        requires
            square.on_board(),
        ensures
            final(self).0 == old(self).0 | (1u64 << square.0),
    {
        self.0 = self.0 | (1u64 << square.0);
    }

    #[inline]
    pub fn pop_bit(&mut self, square: Square)
        requires
            square.on_board(),
        ensures
            final(self).0 == old(self).0 & !(1u64 << square.0),
    {
        self.0 = self.0 & !(1u64 << square.0);
    }

    /// Remove and return the square of the least significant set bit.
    #[inline]
    pub fn pop_ls1b_square(&mut self) -> (r: Square)
        requires
            old(self).0 != 0,
        ensures
            r.0 == lsb64(old(self).0),
            r.on_board(),
            old(self).has(r.0 as u64),
            final(self).0 == clear_lsb64(old(self).0),
            forall|i: u64|
                i < 64 ==> #[trigger] bit64(final(self).0, i) == (bit64(old(self).0, i) && i
                    != r.0),
    {
        proof {
            lemma_lsb(self.0);
        }
        let square = self.ls1b_square();
        self.0 = self.0 & (self.0 - 1);
        square
    }

    #[inline]
    pub fn get_bit(&self, square: Square) -> (r: bool)
        requires
            square.on_board(),
        ensures
            r == self.has(square.0 as u64),
    {
        proof {
            let v = self.0;
            let s = square.0 as u64;
            assert(s < 64 ==> ((v & (1u64 << s)) != 0) == ((v >> s) & 1 == 1)) by (bit_vector);
        }
        (self.0 & (1u64 << square.0)) != 0
    }

    #[inline]
    pub fn is_empty(&self) -> (r: bool)
        ensures
            r == (self.0 == 0),
    {
        self.0 == 0
    }

    #[inline]
    pub fn is_not_empty(&self) -> (r: bool)
        ensures
            r == (self.0 != 0),
    {
        self.0 != 0
    }

    #[inline]
    pub fn equals(&self, rhs: Bitboard) -> (r: bool)
        ensures
            r == (self.0 == rhs.0),
    {
        self.0 == rhs.0
    }

    /// Exactly one bit is set.
    #[inline]
    pub fn only_one_bit(&self) -> (r: bool)
        ensures
            r == (self.0 != 0 && self.0 & (self.0 - 1) as u64 == 0),
            r == (popcnt64(self.0) == 1),
    {
        proof {
            lemma_popcnt_one(self.0);
        }
        self.0 != 0 && (self.0 & self.0.wrapping_sub(1)) == 0
    }

    /// More than one bit is set.
    #[inline]
    pub fn multiple_one_bits(&self) -> (r: bool)
        ensures
            r == (popcnt64(self.0) > 1),
    {
        proof {
            lemma_popcnt_one(self.0);
        }
        self.0 != 0 && (self.0 & self.0.wrapping_sub(1)) != 0
    }

    #[inline]
    pub fn mut_or(&mut self, rhs: Bitboard)
        ensures
            final(self).0 == old(self).0 | rhs.0,
    {
        self.0 = self.0 | rhs.0;
    }

    #[inline]
    pub fn mut_and(&mut self, rhs: Bitboard)
        ensures
            final(self).0 == old(self).0 & rhs.0,
    {
        self.0 = self.0 & rhs.0;
    }

    #[inline]
    pub fn and(&self, rhs: Bitboard) -> (r: Self)
        ensures
            r.0 == self.0 & rhs.0,
    {
        Bitboard(self.0 & rhs.0)
    }

    #[inline]
    pub fn or(&self, rhs: Bitboard) -> (r: Self)
        ensures
            r.0 == self.0 | rhs.0,
    {
        Bitboard(self.0 | rhs.0)
    }

    #[inline]
    pub fn xor(&self, rhs: Bitboard) -> (r: Self)
        ensures
            r.0 == self.0 ^ rhs.0,
    {
        Bitboard(self.0 ^ rhs.0)
    }

    #[inline]
    pub fn inverse(&self) -> (r: Self)
        ensures
            r.0 == !self.0,
    {
        Bitboard(!self.0)
    }

    /// Mirror the board vertically: bit `i` moves to bit `i ^ 56`.
    #[inline]
    pub fn flip(&self) -> (r: Self)
        ensures
            forall|i: u64| i < 64 ==> #[trigger] bit64(r.0, i) == bit64(self.0, i ^ 56),
    {
        let x = self.0;
        let r = (x << 56) | ((x << 40) & 0x00FF_0000_0000_0000) | ((x << 24)
            & 0x0000_FF00_0000_0000) | ((x << 8) & 0x0000_00FF_0000_0000) | ((x >> 8)
            & 0x0000_0000_FF00_0000) | ((x >> 24) & 0x0000_0000_00FF_0000) | ((x >> 40)
            & 0x0000_0000_0000_FF00) | (x >> 56);
        proof {
            lemma_flip_bits(x, r);
        }
        Bitboard(r)
    }

    #[inline]
    pub fn with_square(&self, square: Square) -> (r: Self)
        requires
            square.on_board(),
        ensures
            r.0 == self.0 | (1u64 << square.0),
    {
        Bitboard(self.0 | (1u64 << square.0))
    }

    #[inline]
    pub fn exclude(&self, square: Square) -> (r: Self)
        requires
            square.on_board(),
        ensures
            r.0 == self.0 & !(1u64 << square.0),
    {
        Bitboard(self.0 & !(1u64 << square.0))
    }

    #[inline]
    pub fn shift_left(self, rhs: u32) -> (r: Self)
        requires
            rhs < 64,
        ensures
            r.0 == self.0 << rhs,
    {
        Bitboard(self.0 << rhs)
    }

    #[inline]
    pub fn shift_right(self, rhs: u32) -> (r: Self)
        requires
            rhs < 64,
        ensures
            r.0 == self.0 >> rhs,
    {
        Bitboard(self.0 >> rhs)
    }

    #[inline]
    pub fn wrapping_mul(self, rhs: Bitboard) -> (r: Self)
        ensures
            r.0 == self.0.wrapping_mul(rhs.0),
    {
        Bitboard(self.0.wrapping_mul(rhs.0))
    }
}

impl Default for Bitboard {
    /// The default bitboard is the empty set.
    fn default() -> (r: Self)
        ensures
            r.0 == 0,
    {
        Bitboard(0)
    }
}

impl Square {
    /// The singleton bitboard holding exactly this square.
    #[inline]
    pub fn get_bit(&self) -> (r: Bitboard)
        requires
            self.on_board(),
        ensures
            r.0 == 1u64 << self.0,
            forall|i: u64| i < 64 ==> #[trigger] bit64(r.0, i) == (i == self.0),
    {
        proof {
            crate::bits::lemma_bit_ops();
        }
        Bitboard(1u64 << self.0)
    }
}

/// A value below `2^n` has at most `n` set bits.
proof fn lemma_popcnt_bound(b: u64, n: nat)
    requires
        b < vstd::arithmetic::power2::pow2(n),
    ensures
        popcnt64(b) <= n,
    decreases n,
{
    if n == 0 {
        vstd::arithmetic::power2::lemma2_to64();
    } else {
        vstd::arithmetic::power2::lemma_pow2_unfold(n);
        lemma_popcnt_bound(b / 2, (n - 1) as nat);
    }
}

/// A word has at most 64 set bits.
proof fn lemma_popcnt_le_64(b: u64)
    ensures
        popcnt64(b) <= 64,
{
    vstd::arithmetic::power2::lemma2_to64_rest();
    lemma_popcnt_bound(b, 64);
}

/// `b & (b-1) == 0` characterises words with at most one set bit.
proof fn lemma_popcnt_one(b: u64)
    ensures
        (b != 0 && b & (b - 1) as u64 == 0) == (popcnt64(b) == 1),
        (b != 0 && b & (b - 1) as u64 != 0) == (popcnt64(b) > 1),
{
    if b != 0 {
        lemma_popcnt_single(b);
    }
}

/// For a nonzero word, `b & (b-1)` is zero iff exactly one bit is set.
proof fn lemma_popcnt_single(b: u64)
    requires
        b != 0,
    ensures
        (b & (b - 1) as u64 == 0) == (popcnt64(b) == 1),
        (b & (b - 1) as u64 != 0) == (popcnt64(b) > 1),
{
    lemma_pop_lsb_popcnt(b);
    let rest = clear_lsb64(b);
    if rest == 0 {
        assert(popcnt64(b) == 1);
    } else {
        lemma_popcnt_pos(rest);
    }
}

/// Clearing the lowest set bit removes exactly one from the population count.
proof fn lemma_pop_lsb_popcnt(b: u64)
    requires
        b != 0,
    ensures
        popcnt64(b) == 1 + popcnt64(clear_lsb64(b)),
    decreases b,
{
    let c = clear_lsb64(b);
    if b % 2 == 1 {
        assert(c == b - 1) by (bit_vector)
            requires
                b % 2 == 1,
                c == clear_lsb64(b),
        ;
        assert((b - 1) as u64 % 2 == 0 && (b - 1) as u64 / 2 == b / 2) by (bit_vector)
            requires
                b % 2 == 1,
        ;
    } else {
        assert(c == 2 * ((b / 2) & ((b / 2) - 1) as u64) && (b / 2) != 0) by (bit_vector)
            requires
                b % 2 == 0,
                b != 0,
                c == clear_lsb64(b),
        ;
        let h = b / 2;
        lemma_pop_lsb_popcnt(h);
        assert(c / 2 == clear_lsb64(h) && c % 2 == 0) by (bit_vector)
            requires
                c == 2 * (clear_lsb64((b / 2) as u64)) && b % 2 == 0,
                h == b / 2,
        ;
    }
}

/// A word whose `b & (b-1)` is nonzero has more than one set bit.
pub proof fn lemma_multiple_bits(b: u64)
    ensures
        (b != 0 && b & (b - 1) as u64 != 0) == (popcnt64(b) > 1),
{
    if b != 0 {
        lemma_popcnt_single(b);
    }
}

/// A nonzero word has a positive population count.
proof fn lemma_popcnt_pos(b: u64)
    ensures
        b != 0 ==> popcnt64(b) >= 1,
    decreases b,
{
    if b != 0 && b % 2 == 0 {
        lemma_popcnt_pos(b / 2);
    }
}

/// Bit semantics of the byte-swap expression used by `Bitboard::flip`.
proof fn lemma_flip_bits(x: u64, r: u64)
    by (bit_vector)
    requires
        r == (x << 56) | ((x << 40) & 0x00FF_0000_0000_0000) | ((x << 24) & 0x0000_FF00_0000_0000)
            | ((x << 8) & 0x0000_00FF_0000_0000) | ((x >> 8) & 0x0000_0000_FF00_0000) | ((x >> 24)
            & 0x0000_0000_00FF_0000) | ((x >> 40) & 0x0000_0000_0000_FF00) | (x >> 56),
    ensures
        forall|i: u64| i < 64 ==> #[trigger] bit64(r, i) == bit64(x, i ^ 56),
{
}

} // verus!
