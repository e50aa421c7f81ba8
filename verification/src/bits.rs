//! Bit-level spec functions and lemmas shared by the bitboard machinery.
use vstd::prelude::*;
use vstd::std_specs::bits::{axiom_u64_trailing_zeros, u64_trailing_zeros};

verus! {

/// Bit `i` of `b` is set (out-of-range indices count as clear).
pub open spec fn bit64(b: u64, i: u64) -> bool {
    i < 64 && (b >> i) & 1 == 1
}

/// Number of set bits.
pub open spec fn popcnt64(b: u64) -> nat
    decreases b,
{
    if b == 0 {
        0
    } else {
        (b % 2 + popcnt64(b / 2)) as nat
    }
}

/// Index of the lowest set bit (64 when none is set).
pub open spec fn lsb64(b: u64) -> u64 {
    u64_trailing_zeros(b) as u64
}

/// The value with the lowest set bit of `b` cleared.
pub open spec fn clear_lsb64(b: u64) -> u64 {
    b & (b - 1) as u64
}

/// Clearing the lowest set bit decreases the value.
pub proof fn lemma_clear_lsb_decreases(b: u64)
    by (bit_vector)
    ensures
        b != 0 ==> clear_lsb64(b) < b,
{
}

/// Boolean semantics of the bitwise operators, bit by bit.
pub proof fn lemma_bit_ops()
    by (bit_vector)
    ensures
        forall|a: u64, b: u64, i: u64|
            i < 64 ==> #[trigger] bit64(a | b, i) == (bit64(a, i) || bit64(b, i)),
        forall|a: u64, b: u64, i: u64|
            i < 64 ==> #[trigger] bit64(a & b, i) == (bit64(a, i) && bit64(b, i)),
        forall|a: u64, b: u64, i: u64|
            i < 64 ==> #[trigger] bit64(a ^ b, i) == (bit64(a, i) != bit64(b, i)),
        forall|a: u64, i: u64| i < 64 ==> #[trigger] bit64(!a, i) == !bit64(a, i),
        forall|s: u64, i: u64| s < 64 && i < 64 ==> #[trigger] bit64(1u64 << s, i) == (i == s),
        forall|i: u64| !bit64(0u64, i),
{
}

/// Two words with the same bits are equal.
pub proof fn lemma_bit_ext(a: u64, b: u64)
    requires
        forall|i: u64| i < 64 ==> bit64(a, i) == bit64(b, i),
    ensures
        a == b,
{
    if a != b {
        let d = a ^ b;
        assert(d != 0) by (bit_vector)
            requires
                a != b,
                d == a ^ b,
        ;
        lemma_lsb(d);
        let t = lsb64(d);
        lemma_bit_ops();
        assert(bit64(a, t) != bit64(b, t));
    }
}

/// Given the position `t` of the lowest set bit, `b & (b-1)` clears exactly that bit.
proof fn lemma_clear_lsb_at(b: u64, t: u64, s: u64)
    by (bit_vector)
    requires
        t < 64,
        t + s == 64,
        (b >> t) & 1 == 1,
        b << s == 0,
    ensures
        forall|i: u64| i < 64 ==> #[trigger] bit64(clear_lsb64(b), i) == (bit64(b, i) && i != t),
        forall|i: u64| i < t ==> !bit64(b, i),
{
}

/// Facts about the lowest set bit of a nonzero word.
pub proof fn lemma_lsb(b: u64)
    ensures
        b != 0 ==> lsb64(b) < 64,
        b != 0 ==> bit64(b, lsb64(b)),
        b != 0 ==> forall|i: u64|
            i < 64 ==> #[trigger] bit64(clear_lsb64(b), i) == (bit64(b, i) && i != lsb64(b)),
        forall|i: u64| i < lsb64(b) ==> !bit64(b, i),
        b == 0 ==> lsb64(b) == 64,
{
    axiom_u64_trailing_zeros(b);
    if b != 0 {
        let t = lsb64(b);
        let s = (64 - t) as u64;
        assert((b >> t) & 1 == 1);
        assert(b << s == 0);
        lemma_clear_lsb_at(b, t, s);
        assert forall|i: u64| i < lsb64(b) implies !bit64(b, i) by {
            assert((b >> i) & 1 == 0);
        }
    }
}

/// A single shifted bit is nonzero and has no other bits set.
pub proof fn lemma_shift_one(s: u64)
    by (bit_vector)
    ensures
        s < 64 ==> (1u64 << s) != 0 && ((1u64 << s) & ((1u64 << s) - 1) as u64) == 0,
{
}

/// OR is associative and commutative, with 0 as identity, and a union with a
/// nonzero word is nonzero.
pub proof fn lemma_or_algebra()
    by (bit_vector)
    ensures
        forall|a: u64| #[trigger] (a | 0) == a,
        forall|a: u64| #[trigger] (0 | a) == a,
        forall|a: u64, b: u64| #[trigger] (a | b) == b | a,
        forall|a: u64, b: u64, c: u64| #[trigger] ((a | b) | c) == a | (b | c),
        forall|a: u64, b: u64| a != 0 ==> #[trigger] (a | b) != 0,
{
}

/// Masking cannot raise a value, so small masks stay small.
pub proof fn lemma_and_le(a: u8, m: u8)
    by (bit_vector)
    ensures
        a & m <= a,
{
}

} // verus!
