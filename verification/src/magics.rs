//! Sliding-piece attacks: ray-walk reference computation, relevant-occupancy
//! masks, and the magic-multiplication tables keyed by their generating
//! occupancy so that every lookup provably returns the ray-walk answer.
use vstd::prelude::*;
use vstd::pervasive::VecAdditionalExecFns;
use crate::bitboard::Bitboard;
use crate::bits::{bit64, lemma_bit_ops, popcnt64};
use crate::square::Square;

verus! {

/// Walk one direction from `(r, f)`, collecting squares up to and including
/// the first occupied one, or the board edge.
pub open spec fn spec_dir_attack_walk(occ: u64, r: int, f: int, dr: int, df: int, fuel: nat) -> u64
    decreases fuel,
{
    if fuel == 0 {
        0
    } else {
        let r2 = r + dr;
        let f2 = f + df;
        if !(0 <= r2 < 8 && 0 <= f2 < 8) {
            0
        } else {
            let b = 1u64 << ((r2 * 8 + f2) as u64);
            if bit64(occ, (r2 * 8 + f2) as u64) {
                b
            } else {
                b | spec_dir_attack_walk(occ, r2, f2, dr, df, (fuel - 1) as nat)
            }
        }
    }
}

/// The ray-walk attack set of a slider: union of its four directions.
pub open spec fn spec_slider_attacks_raw(rook: bool, s: u8, occ: u64) -> u64 {
    let r = s as int / 8;
    let f = s as int % 8;
    if rook {
        spec_dir_attack_walk(occ, r, f, 1, 0, 8) | spec_dir_attack_walk(occ, r, f, -1, 0, 8)
            | spec_dir_attack_walk(occ, r, f, 0, 1, 8) | spec_dir_attack_walk(occ, r, f, 0, -1, 8)
    } else {
        spec_dir_attack_walk(occ, r, f, 1, 1, 8) | spec_dir_attack_walk(occ, r, f, 1, -1, 8)
            | spec_dir_attack_walk(occ, r, f, -1, 1, 8) | spec_dir_attack_walk(occ, r, f, -1, -1, 8)
    }
}

/// Walk one direction collecting the relevant-occupancy squares: those whose
/// occupancy can block the ray, which excludes the board-edge squares.
pub open spec fn spec_dir_mask_walk(r: int, f: int, dr: int, df: int, fuel: nat) -> u64
    decreases fuel,
{
    if fuel == 0 {
        0
    } else {
        let r2 = r + dr;
        let f2 = f + df;
        if (dr != 0 && !(1 <= r2 <= 6)) || (df != 0 && !(1 <= f2 <= 6)) {
            0
        } else {
            (1u64 << ((r2 * 8 + f2) as u64)) | spec_dir_mask_walk(r2, f2, dr, df, (fuel - 1) as nat)
        }
    }
}

/// The relevant-occupancy mask of a slider square.
pub open spec fn spec_slider_mask(rook: bool, s: u8) -> u64 {
    let r = s as int / 8;
    let f = s as int % 8;
    if rook {
        spec_dir_mask_walk(r, f, 1, 0, 8) | spec_dir_mask_walk(r, f, -1, 0, 8) | spec_dir_mask_walk(
            r,
            f,
            0,
            1,
            8,
        ) | spec_dir_mask_walk(r, f, 0, -1, 8)
    } else {
        spec_dir_mask_walk(r, f, 1, 1, 8) | spec_dir_mask_walk(r, f, 1, -1, 8)
            | spec_dir_mask_walk(r, f, -1, 1, 8) | spec_dir_mask_walk(r, f, -1, -1, 8)
    }
}

/// The attack set served to callers: the ray walk of the occupancy restricted
/// to the relevant mask (occupancy beyond the mask cannot block anything).
pub open spec fn spec_rook_attacks(s: u8, occ: u64) -> u64 {
    spec_slider_attacks_raw(true, s, occ & spec_slider_mask(true, s))
}

/// The bishop counterpart of `spec_rook_attacks`.
pub open spec fn spec_bishop_attacks(s: u8, occ: u64) -> u64 {
    spec_slider_attacks_raw(false, s, occ & spec_slider_mask(false, s))
}

/// Walk one direction, collecting squares until the first blocker.
fn dir_attack_walk(occ: u64, r0: i32, f0: i32, dr: i32, df: i32) -> (res: u64)
    requires
        0 <= r0 < 8,
        0 <= f0 < 8,
        -1 <= dr <= 1,
        -1 <= df <= 1,
    ensures
        res == spec_dir_attack_walk(occ, r0 as int, f0 as int, dr as int, df as int, 8),
{
    let mut result: u64 = 0;
    let mut r: i32 = r0;
    let mut f: i32 = f0;
    let mut fuel: u32 = 8;
    proof {
        crate::bits::lemma_or_algebra();
    }
    loop
        invariant
            -1 <= dr <= 1,
            -1 <= df <= 1,
            0 <= r < 8,
            0 <= f < 8,
            fuel <= 8,
            spec_dir_attack_walk(occ, r0 as int, f0 as int, dr as int, df as int, 8) == result
                | spec_dir_attack_walk(occ, r as int, f as int, dr as int, df as int, fuel as nat),
        decreases fuel,
    {
        proof {
            crate::bits::lemma_or_algebra();
            crate::bits::lemma_bit_ops();
        }
        if fuel == 0 {
            return result;
        }
        let r2 = r + dr;
        let f2 = f + df;
        if !(0 <= r2 && r2 < 8 && 0 <= f2 && f2 < 8) {
            return result;
        }
        let sq: u64 = (r2 * 8 + f2) as u64;
        proof {
            crate::bits::lemma_shift_one(sq);
            let rest = spec_dir_attack_walk(
                occ,
                r2 as int,
                f2 as int,
                dr as int,
                df as int,
                (fuel - 1) as nat,
            );
            assert(result | ((1u64 << sq) | rest) == (result | (1u64 << sq)) | rest);
        }
        if (occ >> sq) & 1 == 1 {
            return result | (1u64 << sq);
        }
        result = result | (1u64 << sq);
        r = r2;
        f = f2;
        fuel = fuel - 1;
    }
}

/// The ray-walk reference attack computation for a slider.
pub fn slider_attacks_raw(rook: bool, square: Square, occ: u64) -> (res: u64)
    requires
        square.on_board(),
    ensures
        res == spec_slider_attacks_raw(rook, square.0, occ),
{
    let r: i32 = (square.0 / 8) as i32;
    let f: i32 = (square.0 % 8) as i32;
    if rook {
        dir_attack_walk(occ, r, f, 1, 0) | dir_attack_walk(occ, r, f, -1, 0) | dir_attack_walk(
            occ,
            r,
            f,
            0,
            1,
        ) | dir_attack_walk(occ, r, f, 0, -1)
    } else {
        dir_attack_walk(occ, r, f, 1, 1) | dir_attack_walk(occ, r, f, 1, -1) | dir_attack_walk(
            occ,
            r,
            f,
            -1,
            1,
        ) | dir_attack_walk(occ, r, f, -1, -1)
    }
}

/// Walk one direction collecting the relevant-occupancy squares.
fn dir_mask_walk(r0: i32, f0: i32, dr: i32, df: i32) -> (res: u64)
    requires
        0 <= r0 < 8,
        0 <= f0 < 8,
        -1 <= dr <= 1,
        -1 <= df <= 1,
    ensures
        res == spec_dir_mask_walk(r0 as int, f0 as int, dr as int, df as int, 8),
{
    let mut result: u64 = 0;
    let mut r: i32 = r0;
    let mut f: i32 = f0;
    let mut fuel: u32 = 8;
    proof {
        crate::bits::lemma_or_algebra();
    }
    loop
        invariant
            -1 <= dr <= 1,
            -1 <= df <= 1,
            0 <= r < 8,
            0 <= f < 8,
            fuel <= 8,
            spec_dir_mask_walk(r0 as int, f0 as int, dr as int, df as int, 8) == result
                | spec_dir_mask_walk(r as int, f as int, dr as int, df as int, fuel as nat),
        decreases fuel,
    {
        proof {
            crate::bits::lemma_or_algebra();
        }
        if fuel == 0 {
            return result;
        }
        let r2 = r + dr;
        let f2 = f + df;
        if (dr != 0 && !(1 <= r2 && r2 <= 6)) || (df != 0 && !(1 <= f2 && f2 <= 6)) {
            return result;
        }
        let sq: u64 = (r2 * 8 + f2) as u64;
        proof {
            crate::bits::lemma_shift_one(sq);
            let rest = spec_dir_mask_walk(
                r2 as int,
                f2 as int,
                dr as int,
                df as int,
                (fuel - 1) as nat,
            );
            assert(result | ((1u64 << sq) | rest) == (result | (1u64 << sq)) | rest);
        }
        result = result | (1u64 << sq);
        r = r2;
        f = f2;
        fuel = fuel - 1;
    }
}

/// The relevant-occupancy mask of a slider square.
pub fn slider_mask(rook: bool, square: Square) -> (res: u64)
    requires
        square.on_board(),
    ensures
        res == spec_slider_mask(rook, square.0),
{
    let r: i32 = (square.0 / 8) as i32;
    let f: i32 = (square.0 % 8) as i32;
    if rook {
        dir_mask_walk(r, f, 1, 0) | dir_mask_walk(r, f, -1, 0) | dir_mask_walk(r, f, 0, 1)
            | dir_mask_walk(r, f, 0, -1)
    } else {
        dir_mask_walk(r, f, 1, 1) | dir_mask_walk(r, f, 1, -1) | dir_mask_walk(r, f, -1, 1)
            | dir_mask_walk(r, f, -1, -1)
    }
}

/// A set whose every bit lies in `mask` is unchanged by masking.
proof fn lemma_subset_and(a: u64, mask: u64)
    requires
        forall|i: u64| i < 64 ==> (#[trigger] bit64(a, i) ==> bit64(mask, i)),
    ensures
        a & mask == a,
{
    lemma_bit_ops();
    crate::bits::lemma_bit_ext(a & mask, a);
}

/// Spread the low bits of `index` onto the set bits of `mask`: the candidate
/// blocking occupancy with that number.
fn generate_occupancy(index: usize, bit_count: u32, attack_mask: u64) -> (res: u64)
    requires
        bit_count <= 12,
    ensures
        res & attack_mask == res,
{
    let mut result: u64 = 0;
    let mut mut_attack_mask = Bitboard(attack_mask);
    let mut count_index: u32 = 0;
    proof {
        lemma_bit_ops();
    }
    while count_index < bit_count
        invariant
            bit_count <= 12,
            count_index <= bit_count,
            forall|i: u64| i < 64 ==> (#[trigger] bit64(result, i) ==> bit64(attack_mask, i)),
            forall|i: u64|
                i < 64 ==> (#[trigger] bit64(mut_attack_mask.0, i) ==> bit64(attack_mask, i)),
        decreases bit_count - count_index,
    {
        proof {
            lemma_bit_ops();
        }
        if mut_attack_mask.0 == 0 {
            break ;
        }
        let square = mut_attack_mask.pop_ls1b_square();
        if index & (1usize << (count_index as usize)) > 0 {
            proof {
                assert(bit64(attack_mask, square.0 as u64));
            }
            result = result | (1u64 << square.0);
        }
        count_index = count_index + 1;
    }
    proof {
        lemma_subset_and(result, attack_mask);
    }
    result
}

/// One square's table row satisfies the lookup invariant: each slot holds the
/// occupancy that generated it and the ray-walk attacks of that occupancy.
pub open spec fn spec_row_ok(rook: bool, s: u8, mask: u64, keys: Seq<u64>, atts: Seq<u64>) -> bool {
    &&& keys.len() == atts.len()
    &&& forall|k: int|
        0 <= k < keys.len() ==> #[trigger] atts[k] == spec_slider_attacks_raw(rook, s, keys[k])
            && keys[k] & mask == keys[k]
}

/// The whole sliding table satisfies the lookup invariant.
pub open spec fn spec_table_ok(
    rook: bool,
    masks: Seq<u64>,
    magics: Seq<u64>,
    shifts: Seq<u8>,
    keys: Seq<Vec<u64>>,
    atts: Seq<Vec<u64>>,
) -> bool {
    &&& masks.len() == 64 && magics.len() == 64 && shifts.len() == 64 && keys.len() == 64
        && atts.len() == 64
    &&& forall|s: int|
        0 <= s < 64 ==> #[trigger] masks[s] == spec_slider_mask(rook, s as u8) && shifts[s] < 64
            && spec_row_ok(rook, s as u8, masks[s], keys[s]@, atts[s]@)
}

/// Build the magic tables for one slider kind.
#[verifier::spinoff_prover]
#[verifier::rlimit(100)]
fn build_slider(rook: bool, magic_numbers: Vec<u64>) -> (res: (
    Vec<u64>,
    Vec<u64>,
    Vec<u8>,
    Vec<Vec<u64>>,
    Vec<Vec<u64>>,
))
    requires
        magic_numbers@.len() == 64,
    ensures
        spec_table_ok(rook, res.0@, res.1@, res.2@, res.3@, res.4@),
{
    let mut masks: Vec<u64> = Vec::new();
    let mut shifts: Vec<u8> = Vec::new();
    let mut keys: Vec<Vec<u64>> = Vec::new();
    let mut atts: Vec<Vec<u64>> = Vec::new();
    let mut sq: u8 = 0;
    while sq < 64
        invariant
            sq <= 64,
            magic_numbers@.len() == 64,
            masks@.len() == sq && shifts@.len() == sq && keys@.len() == sq && atts@.len() == sq,
            forall|s: int|
                0 <= s < sq ==> #[trigger] masks@[s] == spec_slider_mask(rook, s as u8)
                    && shifts@[s] < 64 && spec_row_ok(rook, s as u8, masks@[s], keys@[s]@, atts@[s]@),
        decreases 64 - sq,
    {
        let mask = slider_mask(rook, Square(sq));
        let bits = Bitboard(mask).pop_count();
        let shift: u8 = if 1 <= bits && bits <= 12 {
            (64 - bits) as u8
        } else {
            63
        };
        let row_len: usize = if 1 <= bits && bits <= 12 {
            1usize << (bits as usize)
        } else {
            1
        };
        proof {
            assert(0u64 & mask == 0u64) by (bit_vector);
        }
        let empty_att = slider_attacks_raw(rook, Square(sq), 0);
        let mut krow: Vec<u64> = Vec::new();
        let mut arow: Vec<u64> = Vec::new();
        let mut j: usize = 0;
        while j < row_len
            invariant
                krow@.len() == j && arow@.len() == j,
                empty_att == spec_slider_attacks_raw(rook, sq, 0),
                0u64 & mask == 0u64,
                sq < 64,
                forall|k: int|
                    0 <= k < j ==> #[trigger] arow@[k] == spec_slider_attacks_raw(rook, sq, krow@[k])
                        && krow@[k] & mask == krow@[k],
            decreases row_len - j,
        {
            krow.push(0);
            arow.push(empty_att);
            j = j + 1;
        }
        if 1 <= bits && bits <= 12 {
            let magic = magic_numbers[sq as usize];
            fill_row(rook, Square(sq), mask, bits, magic, shift, &mut krow, &mut arow);
        }
        let ghost m0 = masks@;
        let ghost s0 = shifts@;
        let ghost k0 = keys@;
        let ghost a0 = atts@;
        masks.push(mask);
        shifts.push(shift);
        keys.push(krow);
        atts.push(arow);
        proof {
            assert forall|s: int| 0 <= s < sq + 1 implies #[trigger] masks@[s] == spec_slider_mask(
                rook,
                s as u8,
            ) && shifts@[s] < 64 && spec_row_ok(rook, s as u8, masks@[s], keys@[s]@, atts@[s]@) by {
                if s < sq {
                    assert(masks@[s] == m0[s] && shifts@[s] == s0[s] && keys@[s] == k0[s]
                        && atts@[s] == a0[s]);
                }
            }
        }
        sq = sq + 1;
    }
    (masks, magic_numbers, shifts, keys, atts)
}

/// Fill one square's table row: store each candidate occupancy's ray-walk
/// attacks at its magic index.
fn fill_row(
    rook: bool,
    square: Square,
    mask: u64,
    bits: u32,
    magic: u64,
    shift: u8,
    krow: &mut Vec<u64>,
    arow: &mut Vec<u64>,
)
    requires
        square.on_board(),
        1 <= bits <= 12,
        shift < 64,
        old(krow)@.len() == old(arow)@.len(),
        spec_row_ok(rook, square.0, mask, old(krow)@, old(arow)@),
    ensures
        final(krow)@.len() == final(arow)@.len(),
        final(krow)@.len() == old(krow)@.len(),
        spec_row_ok(rook, square.0, mask, final(krow)@, final(arow)@),
{
    let total: usize = 1usize << (bits as usize);
    let mut index: usize = 0;
    while index < total
        invariant
            square.on_board(),
            bits <= 12,
            shift < 64,
            krow@.len() == arow@.len(),
            krow@.len() == old(krow)@.len(),
            spec_row_ok(rook, square.0, mask, krow@, arow@),
        decreases total - index,
    {
        let occ_s = generate_occupancy(index, bits, mask);
        let att = slider_attacks_raw(rook, square, occ_s);
        let slot = #[verifier::truncate] ((occ_s.wrapping_mul(magic) >> shift) as usize);
        if slot < krow.len() {
            let ghost k0 = krow@;
            let ghost a0 = arow@;
            krow.set(slot, occ_s);
            arow.set(slot, att);
            proof {
                assert forall|k: int|
                    0 <= k < krow@.len() implies #[trigger] arow@[k] == spec_slider_attacks_raw(
                    rook,
                    square.0,
                    krow@[k],
                ) && krow@[k] & mask == krow@[k] by {
                    if k == slot as int {
                        assert(krow@[k] == occ_s && arow@[k] == att);
                    } else {
                        assert(krow@[k] == k0[k] && arow@[k] == a0[k]);
                    }
                }
            }
        }
        index = index + 1;
    }
}

/// Look one slider attack set up, falling back to the ray walk when the slot
/// does not hold this occupancy's entry.
fn slider_lookup(
    rook: bool,
    masks: &Vec<u64>,
    magics: &Vec<u64>,
    shifts: &Vec<u8>,
    keys: &Vec<Vec<u64>>,
    atts: &Vec<Vec<u64>>,
    square: Square,
    occupancy: u64,
) -> (res: u64)
    requires
        spec_table_ok(rook, masks@, magics@, shifts@, keys@, atts@),
        square.on_board(),
    ensures
        res == spec_slider_attacks_raw(
            rook,
            square.0,
            occupancy & spec_slider_mask(rook, square.0),
        ),
{
    let sq = square.0 as usize;
    let m = occupancy & masks[sq];
    proof {
        let msk = masks@[sq as int];
        assert((occupancy & msk) & msk == occupancy & msk) by (bit_vector);
    }
    let idx = (m.wrapping_mul(magics[sq]) >> shifts[sq]) as usize;
    if idx < keys[sq].len() && keys[sq][idx] == m {
        proof {
            assert(atts@[sq as int]@[idx as int] == spec_slider_attacks_raw(
                rook,
                square.0,
                keys@[sq as int]@[idx as int],
            ));
        }
        return atts[sq][idx];
    }
    slider_attacks_raw(rook, square, m)
}

/// The magic attack table of the rooks.
pub struct RookAttacks {
    pub masks: Vec<u64>,
    pub magics: Vec<u64>,
    pub shifts: Vec<u8>,
    pub keys: Vec<Vec<u64>>,
    pub atts: Vec<Vec<u64>>,
}

impl RookAttacks {
    pub open spec fn wf(self) -> bool {
        spec_table_ok(true, self.masks@, self.magics@, self.shifts@, self.keys@, self.atts@)
    }

    /// Build the rook tables with the fixed multiplicative magic constants.
    pub fn new() -> (r: RookAttacks)
        ensures
            r.wf(),
    {
        let (masks, magics, shifts, keys, atts) = build_slider(true, rook_magic_numbers());
        RookAttacks { masks, magics, shifts, keys, atts }
    }

    /// The rook attack set for a square under the given occupancy.
    pub fn get_rook_attacks(&self, square: Square, occupancy: Bitboard) -> (r: Bitboard)
        requires
            self.wf(),
            square.on_board(),
        ensures
            r.0 == spec_rook_attacks(square.0, occupancy.0),
    {
        Bitboard(
            slider_lookup(
                true,
                &self.masks,
                &self.magics,
                &self.shifts,
                &self.keys,
                &self.atts,
                square,
                occupancy.0,
            ),
        )
    }
}

/// The magic attack table of the bishops.
pub struct BishopAttacks {
    pub masks: Vec<u64>,
    pub magics: Vec<u64>,
    pub shifts: Vec<u8>,
    pub keys: Vec<Vec<u64>>,
    pub atts: Vec<Vec<u64>>,
}

impl BishopAttacks {
    pub open spec fn wf(self) -> bool {
        spec_table_ok(false, self.masks@, self.magics@, self.shifts@, self.keys@, self.atts@)
    }

    /// Build the bishop tables with the fixed multiplicative magic constants.
    pub fn new() -> (r: BishopAttacks)
        ensures
            r.wf(),
    {
        let (masks, magics, shifts, keys, atts) = build_slider(false, bishop_magic_numbers());
        BishopAttacks { masks, magics, shifts, keys, atts }
    }

    /// The bishop attack set for a square under the given occupancy.
    pub fn get_bishop_attacks(&self, square: Square, occupancy: Bitboard) -> (r: Bitboard)
        requires
            self.wf(),
            square.on_board(),
        ensures
            r.0 == spec_bishop_attacks(square.0, occupancy.0),
    {
        Bitboard(
            slider_lookup(
                false,
                &self.masks,
                &self.magics,
                &self.shifts,
                &self.keys,
                &self.atts,
                square,
                occupancy.0,
            ),
        )
    }
}

/// The 64 multiplicative magic constants of the rook table.
pub fn rook_magic_numbers() -> (r: Vec<u64>)
    ensures
        r@.len() == 64,
{
    let v: Vec<u64> = vec![
        9259400973461241857,
        234187460333015040,
        36063981659521032,
        2377918195574046724,
        1080868867234332928,
        72061992118059016,
        180144534867411456,
        72058693558158370,
        5260345103070806016,
        1378171992426954752,
        13835199342794776576,
        90353536244130048,
        1155314059089281152,
        583356906421125632,
        562984346714500,
        585608691194020096,
        1188951126274211904,
        40550263712383040,
        144749606589170949,
        576762018642657345,
        4613938094192984576,
        1126449729896576,
        144116291882713600,
        1128099206989892,
        4908959330109243397,
        5764677945467601024,
        35186520621184,
        166650782695882760,
        4408784453760,
        9549885211018265600,
        18028709342085744,
        4423816397473,
        15024008631798472704,
        144185694263185412,
        9799938353053839360,
        4614078624457295873,
        578721350366004224,
        704795551728640,
        1729663887059452416,
        576461303166534673,
        9511672783898181668,
        9259488795341373440,
        153123487114919972,
        4503634054234176,
        144396697438584836,
        2199090397312,
        2395916444903931912,
        281476058906626,
        288275458347631104,
        14001693577961277760,
        1585284936444020224,
        5764748329242591872,
        22799490427785472,
        140746078552192,
        81346276859576576,
        325398273679442432,
        35257390760450,
        15908851192709121,
        8076117492512065602,
        148746468910469121,
        4653907677319540842,
        281509370265601,
        162130969700081796,
        1445673626624869378,
    ];
    v
}

/// The 64 multiplicative magic constants of the bishop table.
pub fn bishop_magic_numbers() -> (r: Vec<u64>)
    ensures
        r@.len() == 64,
{
    let v: Vec<u64> = vec![
        9300092178686681120,
        1284830893973760,
        2322997520105472,
        16142031364873674789,
        10383348832699154706,
        571763293421568,
        37726495118197760,
        1513231473652670722,
        40550006146990185,
        873700543932137730,
        36037870288505856,
        431188982368272,
        1155210765395821056,
        11538293718411908608,
        4611721787053966849,
        103589390848170272,
        1125968899098624,
        144680358661721088,
        11259553153024529,
        10133272101128193,
        73751202732572676,
        144679238632472832,
        2357915965813425297,
        401383670122021888,
        13528392142225729,
        4643215615211930112,
        9226802530447557664,
        1302666467161997954,
        1306326466426847232,
        2253998841200772,
        9223935538715955216,
        4611977389012961280,
        1161101459345408,
        5630633405878272,
        154573777173479968,
        5224739618297217088,
        184790590020518016,
        141291540840712,
        4621296042111943168,
        9278545841721754664,
        13814550243590400,
        757176487873905668,
        2598717998437009408,
        2344123889522575360,
        360290349769303040,
        14053484853547533328,
        9227878118977438752,
        5102361295591936,
        5233754530306591776,
        4689658989384957952,
        1161642645719051,
        2252351784355840,
        2337004390424,
        1190112502864707589,
        290499785468691593,
        2387190454312566784,
        1235149585505599557,
        4683745820179825441,
        18014407116507136,
        1741698094928005,
        144749056665649409,
        576461028523640968,
        74921813755137,
        18085875364200714,
    ];
    v
}

} // verus!
