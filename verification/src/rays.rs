//! Line-of-sight rays: the squares from one square toward another, up to and
//! including the target, empty when the squares share no line.
use vstd::prelude::*;
use crate::bitboard::Bitboard;
use crate::square::Square;

verus! {

/// One step direction sign.
pub open spec fn spec_sign(a: int, b: int) -> int {
    if a < b {
        1
    } else if a > b {
        -1
    } else {
        0
    }
}

/// Walk from `(r, f)` by `(dr, df)`, collecting squares until the target
/// `(tr, tf)` is reached (inclusive) or the board edge is passed. Yields the
/// empty set if the walk leaves the board before reaching the target.
pub open spec fn spec_ray_walk(r: int, f: int, dr: int, df: int, tr: int, tf: int, fuel: nat) -> u64
    decreases fuel,
{
    if fuel == 0 {
        0
    } else {
        let r2 = r + dr;
        let f2 = f + df;
        if !(0 <= r2 < 8 && 0 <= f2 < 8) {
            0
        } else if r2 == tr && f2 == tf {
            1u64 << ((r2 * 8 + f2) as u64)
        } else {
            let rest = spec_ray_walk(r2, f2, dr, df, tr, tf, (fuel - 1) as nat);
            if rest == 0 {
                0
            } else {
                (1u64 << ((r2 * 8 + f2) as u64)) | rest
            }
        }
    }
}

/// The ray from `from` toward `to`: every square strictly between them plus
/// `to` itself when they share a rank, file or diagonal; otherwise empty.
pub open spec fn spec_ray(from: u8, to: u8) -> u64 {
    let dr = spec_sign(from as int / 8, to as int / 8);
    let df = spec_sign(from as int % 8, to as int % 8);
    if dr == 0 && df == 0 {
        0
    } else {
        spec_ray_walk(from as int / 8, from as int % 8, dr, df, to as int / 8, to as int % 8, 8)
    }
}

pub struct Rays;

impl Rays {
    /// The squares between `from` and `to` (inclusive of `to`) along their
    /// shared line, or the empty set.
    pub fn get_ray(from: Square, to: Square) -> (r: Bitboard)
        requires
            from.on_board(),
            to.on_board(),
        ensures
            r.0 == spec_ray(from.0, to.0),
    {
        let fr: i32 = (from.0 / 8) as i32;
        let ff: i32 = (from.0 % 8) as i32;
        let tr: i32 = (to.0 / 8) as i32;
        let tf: i32 = (to.0 % 8) as i32;
        let dr: i32 = if fr < tr {
            1
        } else if fr > tr {
            -1
        } else {
            0
        };
        let df: i32 = if ff < tf {
            1
        } else if ff > tf {
            -1
        } else {
            0
        };
        if dr == 0 && df == 0 {
            return Bitboard(0);
        }
        proof {
            crate::bits::lemma_or_algebra();
        }
        let mut result: u64 = 0;
        let mut r: i32 = fr;
        let mut f: i32 = ff;
        let mut fuel: u32 = 8;
        loop
            invariant
                -1 <= dr <= 1 && -1 <= df <= 1,
                !(dr == 0 && df == 0),
                0 <= r < 8,
                0 <= f < 8,
                0 <= tr < 8,
                0 <= tf < 8,
                fuel <= 8,
                spec_ray(from.0, to.0) == if spec_ray_walk(
                    r as int,
                    f as int,
                    dr as int,
                    df as int,
                    tr as int,
                    tf as int,
                    fuel as nat,
                ) == 0 {
                    0u64
                } else {
                    result | spec_ray_walk(
                        r as int,
                        f as int,
                        dr as int,
                        df as int,
                        tr as int,
                        tf as int,
                        fuel as nat,
                    )
                },
            decreases fuel,
        {
            if fuel == 0 {
                return Bitboard(0);
            }
            let r2 = r + dr;
            let f2 = f + df;
            if !(0 <= r2 && r2 < 8 && 0 <= f2 && f2 < 8) {
                return Bitboard(0);
            }
            let sq: u64 = (r2 * 8 + f2) as u64;
            if r2 == tr && f2 == tf {
                proof {
                    crate::bits::lemma_shift_one(sq);
                }
                return Bitboard(result | (1u64 << sq));
            }
            proof {
                crate::bits::lemma_shift_one(sq);
                crate::bits::lemma_or_algebra();
                let rest = spec_ray_walk(
                    r2 as int,
                    f2 as int,
                    dr as int,
                    df as int,
                    tr as int,
                    tf as int,
                    (fuel - 1) as nat,
                );
                assert(result | ((1u64 << sq) | rest) == (result | (1u64 << sq)) | rest);
                assert(rest != 0 ==> ((1u64 << sq) | rest) != 0);
            }
            result = result | (1u64 << sq);
            r = r2;
            f = f2;
            fuel = fuel - 1;
        }
    }
}

} // verus!
