//! The legal move generator: a check-count state machine with per-piece-type
//! generation rules, pin-aware, with a speculative probe for en-passant.
use vstd::prelude::*;
use crate::attacks::{spec_king_attacks, spec_knight_attacks, spec_pawn_attacks, Attacks};
use crate::bitboard::{Bitboard, RANK_2, RANK_7};
use crate::bits::{bit64, clear_lsb64, lemma_bit_ops, lemma_clear_lsb_decreases, lemma_lsb, lsb64, popcnt64};
use crate::board::ChessBoard;
use crate::magics::{spec_bishop_attacks, spec_rook_attacks};
use crate::make_move::{apply_move_spec, move_ok};
use crate::masks::{spec_attack_map, spec_attackers_to, spec_checkers, spec_pin_masks};
use crate::moves::{
    Move, BISHOP_PROMOTION, BISHOP_PROMOTION_CAPTURE, CAPTURE, DOUBLE_PUSH, EN_PASSANT,
    KING_SIDE_CASTLE, KNIGHT_PROMOTION, KNIGHT_PROMOTION_CAPTURE, QUEEN_PROMOTION,
    QUEEN_PROMOTION_CAPTURE, QUEEN_SIDE_CASTLE, QUIET_MOVE, ROOK_PROMOTION,
    ROOK_PROMOTION_CAPTURE,
};
use crate::piece::{Piece, BISHOP, KING, KNIGHT, PAWN, QUEEN, ROOK};
use crate::rays::{spec_ray, Rays};
use crate::side::{Side, BLACK, WHITE};
use crate::square::Square;

verus! {

pub struct MoveGen;

/// Every move in the sequence can be applied safely to `b`.
pub open spec fn moves_ok(b: ChessBoard, moves: Seq<Move>) -> bool {
    forall|k: int| 0 <= k < moves.len() ==> move_ok(b, #[trigger] moves[k])
}

/// A generated move respects the pins: a piece standing on a pin ray (other
/// than the king itself, and apart from en-passant, which is probed
/// separately) only moves along that ray.
pub open spec fn pin_safe(b: ChessBoard, m: Move) -> bool {
    let pins = spec_pin_masks(b, b.stm());
    m.spec_from() == b.spec_king_sq(b.stm()) || m.spec_flag() == EN_PASSANT || {
        &&& (bit64(pins.0, m.spec_from() as u64) ==> bit64(pins.0, m.spec_to() as u64))
        &&& (bit64(pins.1, m.spec_from() as u64) ==> bit64(pins.1, m.spec_to() as u64))
    }
}

pub open spec fn moves_pin_safe(b: ChessBoard, moves: Seq<Move>) -> bool {
    forall|k: int| 0 <= k < moves.len() ==> pin_safe(b, #[trigger] moves[k])
}

/// One move per set bit of `targets`, from `from` with `flag`.
pub open spec fn spec_emit_targets(from: u8, targets: u64, flag: u16, acc: Seq<Move>) -> Seq<Move>
    decreases targets,
    via spec_emit_targets_decreases
{
    if targets == 0 {
        acc
    } else {
        spec_emit_targets(
            from,
            clear_lsb64(targets),
            flag,
            acc.push(Move(Move::spec_pack(from, lsb64(targets) as u8, flag))),
        )
    }
}

#[via_fn]
proof fn spec_emit_targets_decreases(from: u8, targets: u64, flag: u16, acc: Seq<Move>) {
    lemma_clear_lsb_decreases(targets);
}

/// Emit a move for every set bit of `targets`.
fn emit_targets(from: Square, targets: Bitboard, flag: u16, out: &mut Vec<Move>)
    requires
        from.on_board(),
        flag < 16,
    ensures
        final(out)@ == spec_emit_targets(from.0, targets.0, flag, old(out)@),
        final(out)@.len() >= old(out)@.len(),
        forall|k: int|
            old(out)@.len() <= k < final(out)@.len() ==> #[trigger] final(out)@[k].spec_from()
                == from.0 && bit64(targets.0, final(out)@[k].spec_to() as u64)
                && final(out)@[k].spec_flag() == flag && final(out)@[k].spec_to() < 64,
        forall|k: int| 0 <= k < old(out)@.len() ==> final(out)@[k] == old(out)@[k],
{
    let mut bb = targets;
    proof {
        lemma_bit_ops();
    }
    while bb.0 != 0
        invariant
            from.on_board(),
            flag < 16,
            spec_emit_targets(from.0, bb.0, flag, out@) == spec_emit_targets(
                from.0,
                targets.0,
                flag,
                old(out)@,
            ),
            out@.len() >= old(out)@.len(),
            forall|i: u64| i < 64 ==> (#[trigger] bit64(bb.0, i) ==> bit64(targets.0, i)),
            forall|k: int|
                old(out)@.len() <= k < out@.len() ==> #[trigger] out@[k].spec_from() == from.0
                    && bit64(targets.0, out@[k].spec_to() as u64) && out@[k].spec_flag() == flag
                    && out@[k].spec_to() < 64,
            forall|k: int| 0 <= k < old(out)@.len() ==> out@[k] == old(out)@[k],
        decreases bb.0,
    {
        proof {
            lemma_clear_lsb_decreases(bb.0);
            lemma_bit_ops();
        }
        let to = bb.pop_ls1b_square();
        out.push(Move::from_squares(from, to, flag));
    }
}

/// The four promotion moves of one pawn step, in knight-bishop-rook-queen
/// order.
pub open spec fn spec_promo_set(from: u8, to: u8, capture: bool, acc: Seq<Move>) -> Seq<Move> {
    let base: u16 = if capture {
        KNIGHT_PROMOTION_CAPTURE
    } else {
        KNIGHT_PROMOTION
    };
    acc.push(Move(Move::spec_pack(from, to, base))).push(
        Move(Move::spec_pack(from, to, (base + 1) as u16)),
    ).push(Move(Move::spec_pack(from, to, (base + 2) as u16))).push(
        Move(Move::spec_pack(from, to, (base + 3) as u16)),
    )
}

/// What holds of each of the four promotion moves of one pawn step.
pub open spec fn promo_set_entry_ok(from: u8, to: u8, capture: bool, m: Move) -> bool {
    &&& m.spec_from() == from
    &&& m.spec_to() == to
    &&& m.spec_flag() >= KNIGHT_PROMOTION
    &&& m.spec_flag() < 16
    &&& (m.spec_flag() & CAPTURE != 0) == capture
}

/// Emit the four promotion moves of one pawn step.
fn emit_promo_set(from: Square, to: Square, capture: bool, out: &mut Vec<Move>)
    requires
        from.on_board(),
        to.on_board(),
    ensures
        final(out)@ == spec_promo_set(from.0, to.0, capture, old(out)@),
        final(out)@.len() == old(out)@.len() + 4,
        forall|k: int|
            old(out)@.len() <= k < final(out)@.len() ==> promo_set_entry_ok(
                from.0,
                to.0,
                capture,
                #[trigger] final(out)@[k],
            ),
        forall|k: int| 0 <= k < old(out)@.len() ==> final(out)@[k] == old(out)@[k],
{
    let base: u16 = if capture {
        KNIGHT_PROMOTION_CAPTURE
    } else {
        KNIGHT_PROMOTION
    };
    proof {
        assert(KNIGHT_PROMOTION_CAPTURE & CAPTURE != 0 && ((KNIGHT_PROMOTION_CAPTURE + 1) as u16)
            & CAPTURE != 0 && ((KNIGHT_PROMOTION_CAPTURE + 2) as u16) & CAPTURE != 0 && ((
        KNIGHT_PROMOTION_CAPTURE + 3) as u16) & CAPTURE != 0 && KNIGHT_PROMOTION & CAPTURE == 0 && (
        (KNIGHT_PROMOTION + 1) as u16) & CAPTURE == 0 && ((KNIGHT_PROMOTION + 2) as u16) & CAPTURE
            == 0 && ((KNIGHT_PROMOTION + 3) as u16) & CAPTURE == 0) by (bit_vector);
    }
    out.push(Move::from_squares(from, to, base));
    out.push(Move::from_squares(from, to, base + 1));
    out.push(Move::from_squares(from, to, base + 2));
    out.push(Move::from_squares(from, to, base + 3));
    proof {
        assert forall|k: int|
            old(out)@.len() <= k < out@.len() implies promo_set_entry_ok(
            from.0,
            to.0,
            capture,
            #[trigger] out@[k],
        ) by {
            assert(out@[k].spec_from() == from.0);
        }
    }
}

/// Four promotion moves per set bit of `targets`.
pub open spec fn spec_emit_promos(from: u8, targets: u64, capture: bool, acc: Seq<Move>) -> Seq<
    Move,
>
    decreases targets,
    via spec_emit_promos_decreases
{
    if targets == 0 {
        acc
    } else {
        spec_emit_promos(
            from,
            clear_lsb64(targets),
            capture,
            spec_promo_set(from, lsb64(targets) as u8, capture, acc),
        )
    }
}

#[via_fn]
proof fn spec_emit_promos_decreases(from: u8, targets: u64, capture: bool, acc: Seq<Move>) {
    lemma_clear_lsb_decreases(targets);
}

/// What holds of every move a promotion emitter appends.
pub open spec fn promo_entry_ok(from: u8, targets: u64, capture: bool, m: Move) -> bool {
    &&& m.spec_from() == from
    &&& bit64(targets, m.spec_to() as u64)
    &&& m.spec_flag() >= KNIGHT_PROMOTION
    &&& (m.spec_flag() & CAPTURE != 0) == capture
    &&& m.spec_to() < 64
}

/// Emit the four promotion moves for every set bit of `targets`.
fn emit_promos(from: Square, targets: Bitboard, capture: bool, out: &mut Vec<Move>)
    requires
        from.on_board(),
    ensures
        final(out)@ == spec_emit_promos(from.0, targets.0, capture, old(out)@),
        final(out)@.len() >= old(out)@.len(),
        forall|k: int|
            old(out)@.len() <= k < final(out)@.len() ==> promo_entry_ok(
                from.0,
                targets.0,
                capture,
                #[trigger] final(out)@[k],
            ),
        forall|k: int| 0 <= k < old(out)@.len() ==> final(out)@[k] == old(out)@[k],
{
    let mut bb = targets;
    proof {
        lemma_bit_ops();
    }
    while bb.0 != 0
        invariant
            from.on_board(),
            spec_emit_promos(from.0, bb.0, capture, out@) == spec_emit_promos(
                from.0,
                targets.0,
                capture,
                old(out)@,
            ),
            out@.len() >= old(out)@.len(),
            forall|i: u64| i < 64 ==> (#[trigger] bit64(bb.0, i) ==> bit64(targets.0, i)),
            forall|k: int|
                old(out)@.len() <= k < out@.len() ==> promo_entry_ok(
                    from.0,
                    targets.0,
                    capture,
                    #[trigger] out@[k],
                ),
            forall|k: int| 0 <= k < old(out)@.len() ==> out@[k] == old(out)@[k],
        decreases bb.0,
    {
        proof {
            lemma_clear_lsb_decreases(bb.0);
            lemma_bit_ops();
        }
        let ghost b_pre = bb.0;
        let ghost o_pre = out@;
        let to = bb.pop_ls1b_square();
        emit_promo_set(from, to, capture, out);
        proof {
            assert forall|k: int|
                old(out)@.len() <= k < out@.len() implies promo_entry_ok(
                from.0,
                targets.0,
                capture,
                #[trigger] out@[k],
            ) by {
                if k < o_pre.len() as int {
                    assert(out@[k] == o_pre[k]);
                } else {
                    assert(bit64(b_pre, to.0 as u64));
                }
            }
        }
    }
}

/// A capture emitted toward the capture map is safe to apply.
proof fn lemma_capture_move_ok(b: ChessBoard, m: Move, capm: u64)
    requires
        capture_map_ok(b, capm),
        m.spec_from() < 64,
        m.spec_to() < 64,
        b.pieces.spec_occupied(m.spec_from()),
        b.pieces.spec_color_at(m.spec_from()) == b.stm(),
        b.pieces.spec_piece_at(m.spec_from()) != PAWN,
        bit64(capm, m.spec_to() as u64),
        m.spec_flag() == CAPTURE,
    ensures
        move_ok(b, m),
{
    assert(CAPTURE & CAPTURE != 0 && QUIET_MOVE & CAPTURE == 0) by (bit_vector);
    assert(bit64(capm, m.spec_to() as u64));
    assert(b.pieces.spec_color_at(m.spec_to()) == 1 - b.stm());
}

/// A quiet move emitted toward the push map is safe to apply.
proof fn lemma_quiet_move_ok(b: ChessBoard, m: Move, pushm: u64)
    requires
        push_map_ok(b, pushm),
        m.spec_from() < 64,
        m.spec_to() < 64,
        b.pieces.spec_occupied(m.spec_from()),
        b.pieces.spec_color_at(m.spec_from()) == b.stm(),
        b.pieces.spec_piece_at(m.spec_from()) != PAWN,
        bit64(pushm, m.spec_to() as u64),
        m.spec_flag() == QUIET_MOVE,
    ensures
        move_ok(b, m),
{
    assert(CAPTURE & CAPTURE != 0 && QUIET_MOVE & CAPTURE == 0) by (bit_vector);
    assert(bit64(pushm, m.spec_to() as u64));
    assert(!b.pieces.spec_occupied(m.spec_to()));
}

/// A pawn move respects the two pin masks (en-passant is probed separately).
pub open spec fn pawn_pin_ok(d: u64, o: u64, m: Move) -> bool {
    m.spec_flag() == EN_PASSANT || ((bit64(d, m.spec_from() as u64) ==> bit64(
        d,
        m.spec_to() as u64,
    )) && (bit64(o, m.spec_from() as u64) ==> bit64(o, m.spec_to() as u64)))
}

/// The move starts inside `set` and lands inside `restrict`.
pub open spec fn entry_within(set: u64, restrict: u64, m: Move) -> bool {
    bit64(set, m.spec_from() as u64) && bit64(restrict, m.spec_to() as u64)
}

/// Every square of `set` holds a non-pawn, non-king piece of the side to move.
pub open spec fn own_piece_set(b: ChessBoard, set: u64) -> bool {
    forall|s: u64|
        s < 64 ==> (#[trigger] bit64(set, s) ==> b.pieces.spec_occupied(s as u8)
            && b.pieces.spec_color_at(s as u8) == b.stm() && b.pieces.spec_piece_at(s as u8) != PAWN)
}

/// Every square of `set` holds a pawn of the side to move.
pub open spec fn own_pawn_set(b: ChessBoard, set: u64) -> bool {
    forall|s: u64|
        s < 64 ==> (#[trigger] bit64(set, s) ==> b.pieces.spec_occupied(s as u8)
            && b.pieces.spec_color_at(s as u8) == b.stm() && b.pieces.spec_piece_at(s as u8)
            == PAWN)
}

/// Every square of `pushm` is empty.
pub open spec fn push_map_ok(b: ChessBoard, pushm: u64) -> bool {
    forall|t: u64| t < 64 ==> (#[trigger] bit64(pushm, t) ==> !b.pieces.spec_occupied(t as u8))
}

/// Every square of `capm` holds an opposing piece that is not a king.
pub open spec fn capture_map_ok(b: ChessBoard, capm: u64) -> bool {
    forall|t: u64|
        t < 64 ==> (#[trigger] bit64(capm, t) ==> b.pieces.spec_occupied(t as u8)
            && b.pieces.spec_color_at(t as u8) == 1 - b.stm() && b.pieces.spec_piece_at(t as u8)
            != KING)
}

/// The attack set of one non-pawn mover kind.
pub open spec fn spec_mover_attacks(kind: u8, s: u8, occ: u64) -> u64 {
    if kind == KNIGHT {
        spec_knight_attacks(s)
    } else if kind == BISHOP {
        spec_bishop_attacks(s, occ)
    } else if kind == ROOK {
        spec_rook_attacks(s, occ)
    } else {
        spec_king_attacks(s)
    }
}

/// The moves of the pieces of `set`: captures into `capm`, then, unless only
/// captures are wanted, quiet moves into `pushm`, attacks restricted to
/// `restrict`.
pub open spec fn spec_piece_loop(
    kind: u8,
    occ: u64,
    set: u64,
    restrict: u64,
    pushm: u64,
    capm: u64,
    cap_only: bool,
    acc: Seq<Move>,
) -> Seq<Move>
    decreases set,
    via spec_piece_loop_decreases
{
    if set == 0 {
        acc
    } else {
        let s = lsb64(set) as u8;
        let att = spec_mover_attacks(kind, s, occ) & restrict;
        let a1 = spec_emit_targets(s, att & capm, CAPTURE, acc);
        let a2 = if cap_only {
            a1
        } else {
            spec_emit_targets(s, att & pushm, QUIET_MOVE, a1)
        };
        spec_piece_loop(kind, occ, clear_lsb64(set), restrict, pushm, capm, cap_only, a2)
    }
}

#[via_fn]
proof fn spec_piece_loop_decreases(
    kind: u8,
    occ: u64,
    set: u64,
    restrict: u64,
    pushm: u64,
    capm: u64,
    cap_only: bool,
    acc: Seq<Move>,
) {
    lemma_clear_lsb_decreases(set);
}

impl MoveGen {
    /// Generate the moves of one set of non-pawn movers.
    #[verifier::rlimit(60)]
    pub fn generate_piece_moves(
        board: &ChessBoard,
        atk: &Attacks,
        kind: u8,
        set: Bitboard,
        restrict: Bitboard,
        push_map: Bitboard,
        capture_map: Bitboard,
        capture_only: bool,
        out: &mut Vec<Move>,
    )
        requires
            atk.wf(),
            board.pieces.wf(),
            kind == KNIGHT || kind == BISHOP || kind == ROOK,
            own_piece_set(*board, set.0),
            push_map_ok(*board, push_map.0),
            capture_map_ok(*board, capture_map.0),
            moves_ok(*board, old(out)@),
        ensures
            final(out)@ == spec_piece_loop(
                kind,
                board.pieces.spec_all_occ(),
                set.0,
                restrict.0,
                push_map.0,
                capture_map.0,
                capture_only,
                old(out)@,
            ),
            moves_ok(*board, final(out)@),
            final(out)@.len() >= old(out)@.len(),
            forall|k: int| 0 <= k < old(out)@.len() ==> final(out)@[k] == old(out)@[k],
            forall|k: int|
                old(out)@.len() <= k < final(out)@.len() ==> entry_within(
                    set.0,
                    restrict.0,
                    #[trigger] final(out)@[k],
                ),
    {
        let occ = board.get_occupancy();
        let mut bb = set;
        proof {
            lemma_bit_ops();
        }
        while bb.0 != 0
            invariant
                atk.wf(),
                board.pieces.wf(),
                kind == KNIGHT || kind == BISHOP || kind == ROOK,
                occ.0 == board.pieces.spec_all_occ(),
                own_piece_set(*board, set.0),
                push_map_ok(*board, push_map.0),
                capture_map_ok(*board, capture_map.0),
                moves_ok(*board, out@),
                out@.len() >= old(out)@.len(),
                forall|i: u64| i < 64 ==> (#[trigger] bit64(bb.0, i) ==> bit64(set.0, i)),
                forall|k: int| 0 <= k < old(out)@.len() ==> out@[k] == old(out)@[k],
                forall|k: int|
                    old(out)@.len() <= k < out@.len() ==> entry_within(
                        set.0,
                        restrict.0,
                        #[trigger] out@[k],
                    ),
                spec_piece_loop(
                    kind,
                    occ.0,
                    bb.0,
                    restrict.0,
                    push_map.0,
                    capture_map.0,
                    capture_only,
                    out@,
                ) == spec_piece_loop(
                    kind,
                    occ.0,
                    set.0,
                    restrict.0,
                    push_map.0,
                    capture_map.0,
                    capture_only,
                    old(out)@,
                ),
            decreases bb.0,
        {
            proof {
                lemma_clear_lsb_decreases(bb.0);
                lemma_bit_ops();
            }
            let from = bb.pop_ls1b_square();
            let attacks: u64 = if kind == KNIGHT {
                atk.get_knight_attacks_for_square(from).0
            } else if kind == BISHOP {
                atk.get_bishop_attacks_for_square(from, occ).0
            } else {
                atk.get_rook_attacks_for_square(from, occ).0
            };
            let attacks = attacks & restrict.0;
            let ghost o1 = out@;
            emit_targets(from, Bitboard(attacks & capture_map.0), CAPTURE, out);
            proof {
                assert(bit64(set.0, from.0 as u64));
                assert forall|k: int| 0 <= k < out@.len() implies move_ok(
                    *board,
                    #[trigger] out@[k],
                ) by {
                    if k >= o1.len() {
                        let m = out@[k];
                        assert(m.spec_from() == from.0);
                        assert(bit64(Bitboard(attacks & capture_map.0).0, m.spec_to() as u64));
                        assert(bit64(capture_map.0, m.spec_to() as u64));
                        lemma_capture_move_ok(*board, m, capture_map.0);
                    }
                }
                assert forall|k: int|
                    old(out)@.len() <= k < out@.len() implies entry_within(
                    set.0,
                    restrict.0,
                    #[trigger] out@[k],
                ) by {
                    if k >= o1.len() {
                        let m = out@[k];
                        assert(m.spec_from() == from.0);
                        assert(bit64(Bitboard(attacks & capture_map.0).0, m.spec_to() as u64));
                        assert(bit64(restrict.0, m.spec_to() as u64));
                        assert(bit64(set.0, from.0 as u64));
                    }
                }
            }
            if !capture_only {
                let ghost o2 = out@;
                emit_targets(from, Bitboard(attacks & push_map.0), QUIET_MOVE, out);
                proof {
                    assert forall|k: int| 0 <= k < out@.len() implies move_ok(
                        *board,
                        #[trigger] out@[k],
                    ) by {
                        if k >= o2.len() {
                            let m = out@[k];
                            assert(m.spec_from() == from.0);
                            assert(bit64(Bitboard(attacks & push_map.0).0, m.spec_to() as u64));
                            assert(bit64(push_map.0, m.spec_to() as u64));
                            lemma_quiet_move_ok(*board, m, push_map.0);
                        }
                    }
                    assert forall|k: int|
                        old(out)@.len() <= k < out@.len() implies entry_within(
                        set.0,
                        restrict.0,
                        #[trigger] out@[k],
                    ) by {
                        if k >= o2.len() {
                            let m = out@[k];
                            assert(m.spec_from() == from.0);
                            assert(bit64(Bitboard(attacks & push_map.0).0, m.spec_to() as u64));
                            assert(bit64(restrict.0, m.spec_to() as u64));
                            assert(bit64(set.0, from.0 as u64));
                        }
                    }
                }
            }
        }
    }
}

/// Rank geometry of the two pawn masks used by the generator.
proof fn lemma_rank_masks(s: u64)
    by (bit_vector)
    ensures
        bit64(RANK_2, s) == (s < 64 && s / 8 == 1),
        bit64(RANK_7, s) == (s < 64 && s / 8 == 6),
        bit64(0xFF00_0000_0000_00FFu64, s) == (s < 64 && (s / 8 == 0 || s / 8 == 7)),
{
}

/// A pawn capture from a middle rank is safe to apply.
proof fn lemma_pawn_capture_move_ok(b: ChessBoard, m: Move, capm: u64)
    requires
        capture_map_ok(b, capm),
        m.spec_from() < 64,
        m.spec_to() < 64,
        b.pieces.spec_occupied(m.spec_from()),
        b.pieces.spec_color_at(m.spec_from()) == b.stm(),
        b.pieces.spec_piece_at(m.spec_from()) == PAWN,
        bit64(capm, m.spec_to() as u64),
        m.spec_flag() == CAPTURE,
        m.spec_to() / 8 != 0 && m.spec_to() / 8 != 7,
    ensures
        move_ok(b, m),
{
    assert(CAPTURE & CAPTURE != 0) by (bit_vector);
    assert(bit64(capm, m.spec_to() as u64));
    assert(b.pieces.spec_color_at(m.spec_to()) == 1 - b.stm());
}

/// A single pawn push onto an empty middle-rank square is safe to apply.
proof fn lemma_pawn_push_move_ok(b: ChessBoard, m: Move, pushm: u64)
    requires
        push_map_ok(b, pushm),
        m.spec_from() < 64,
        m.spec_to() < 64,
        b.pieces.spec_occupied(m.spec_from()),
        b.pieces.spec_color_at(m.spec_from()) == b.stm(),
        b.pieces.spec_piece_at(m.spec_from()) == PAWN,
        bit64(pushm, m.spec_to() as u64),
        m.spec_flag() == QUIET_MOVE,
        m.spec_to() / 8 != 0 && m.spec_to() / 8 != 7,
        m.spec_from() != m.spec_to(),
    ensures
        move_ok(b, m),
{
    assert(QUIET_MOVE & CAPTURE == 0) by (bit_vector);
    assert(bit64(pushm, m.spec_to() as u64));
    assert(!b.pieces.spec_occupied(m.spec_to()));
}

/// A double pawn push over two empty squares from the start rank is safe.
proof fn lemma_double_push_move_ok(b: ChessBoard, m: Move, pushm: u64)
    requires
        push_map_ok(b, pushm),
        m.spec_from() < 64,
        m.spec_to() < 64,
        b.pieces.spec_occupied(m.spec_from()),
        b.pieces.spec_color_at(m.spec_from()) == b.stm(),
        b.pieces.spec_piece_at(m.spec_from()) == PAWN,
        bit64(pushm, m.spec_to() as u64),
        m.spec_flag() == DOUBLE_PUSH,
        !b.pieces.spec_occupied((m.spec_to() ^ 8) as u8),
        b.stm() == WHITE ==> m.spec_from() / 8 == 1 && m.spec_to() == m.spec_from() + 16,
        b.stm() == BLACK ==> m.spec_from() / 8 == 6 && m.spec_to() + 16 == m.spec_from(),
    ensures
        move_ok(b, m),
{
    assert(DOUBLE_PUSH & CAPTURE == 0) by (bit_vector);
    assert(bit64(pushm, m.spec_to() as u64));
    assert(!b.pieces.spec_occupied(m.spec_to()));
}

/// A promotion whose destination follows the pawn-attack or push geometry is
/// safe to apply.
proof fn lemma_promo_move_ok(b: ChessBoard, m: Move, capm: u64, pushm: u64)
    requires
        m.spec_from() < 64,
        m.spec_to() < 64,
        b.pieces.spec_occupied(m.spec_from()),
        b.pieces.spec_color_at(m.spec_from()) == b.stm(),
        b.pieces.spec_piece_at(m.spec_from()) == PAWN,
        m.spec_flag() >= KNIGHT_PROMOTION,
        m.spec_flag() < 16,
        b.stm() == WHITE ==> m.spec_from() / 8 == 6 && m.spec_to() / 8 == 7,
        b.stm() == BLACK ==> m.spec_from() / 8 == 1 && m.spec_to() / 8 == 0,
        m.spec_flag() & CAPTURE != 0 ==> capture_map_ok(b, capm) && bit64(
            capm,
            m.spec_to() as u64,
        ),
        m.spec_flag() & CAPTURE == 0 ==> push_map_ok(b, pushm) && bit64(
            pushm,
            m.spec_to() as u64,
        ),
    ensures
        move_ok(b, m),
{
    let f = m.spec_flag();
    assert(f >= KNIGHT_PROMOTION && f < 16 ==> f != EN_PASSANT && f != 6 && f != 7 && f
        != DOUBLE_PUSH && f != KING_SIDE_CASTLE && f != QUEEN_SIDE_CASTLE) by (bit_vector);
    if f & CAPTURE != 0 {
        assert(bit64(capm, m.spec_to() as u64));
        assert(b.pieces.spec_color_at(m.spec_to()) == 1 - b.stm());
    } else {
        assert(bit64(pushm, m.spec_to() as u64));
        assert(!b.pieces.spec_occupied(m.spec_to()));
    }
}

/// The pawn captures of `set` into `capm`, restricted to `restrict`.
pub open spec fn spec_pawn_cap_loop(
    side: u8,
    set: u64,
    restrict: u64,
    capm: u64,
    promos: bool,
    acc: Seq<Move>,
) -> Seq<Move>
    decreases set,
    via spec_pawn_cap_loop_decreases
{
    if set == 0 {
        acc
    } else {
        let p = lsb64(set) as u8;
        let targets = spec_pawn_attacks(side, p) & capm & restrict;
        let a1 = if promos {
            spec_emit_promos(p, targets, true, acc)
        } else {
            spec_emit_targets(p, targets, CAPTURE, acc)
        };
        spec_pawn_cap_loop(side, clear_lsb64(set), restrict, capm, promos, a1)
    }
}

#[via_fn]
proof fn spec_pawn_cap_loop_decreases(
    side: u8,
    set: u64,
    restrict: u64,
    capm: u64,
    promos: bool,
    acc: Seq<Move>,
) {
    lemma_clear_lsb_decreases(set);
}

/// The single pushes (or push promotions) of `set` into `pushm & restrict`.
pub open spec fn spec_pawn_push_loop(
    white: bool,
    set: u64,
    pushm: u64,
    restrict: u64,
    promos: bool,
    acc: Seq<Move>,
) -> Seq<Move>
    decreases set,
    via spec_pawn_push_loop_decreases
{
    if set == 0 {
        acc
    } else {
        let p = lsb64(set) as u8;
        let to: u8 = if white {
            (p + 8) as u8
        } else {
            (p - 8) as u8
        };
        let hit = to < 64 && bit64(pushm & restrict, to as u64);
        let a1 = if hit && promos {
            spec_promo_set(p, to, false, acc)
        } else if hit {
            acc.push(Move(Move::spec_pack(p, to, QUIET_MOVE)))
        } else {
            acc
        };
        spec_pawn_push_loop(white, clear_lsb64(set), pushm, restrict, promos, a1)
    }
}

#[via_fn]
proof fn spec_pawn_push_loop_decreases(
    white: bool,
    set: u64,
    pushm: u64,
    restrict: u64,
    promos: bool,
    acc: Seq<Move>,
) {
    lemma_clear_lsb_decreases(set);
}

/// The double pushes of `set` over an empty passing square into
/// `pushm & restrict`.
pub open spec fn spec_pawn_double_loop(
    white: bool,
    set: u64,
    occ: u64,
    pushm: u64,
    restrict: u64,
    acc: Seq<Move>,
) -> Seq<Move>
    decreases set,
    via spec_pawn_double_loop_decreases
{
    if set == 0 {
        acc
    } else {
        let p = lsb64(set) as u8;
        let pass: u8 = if white {
            (p + 8) as u8
        } else {
            (p - 8) as u8
        };
        let to: u8 = if white {
            (p + 16) as u8
        } else {
            (p - 16) as u8
        };
        let hit = to < 64 && pass < 64 && !bit64(occ, pass as u64) && bit64(
            pushm & restrict,
            to as u64,
        );
        let a1 = if hit {
            acc.push(Move(Move::spec_pack(p, to, DOUBLE_PUSH)))
        } else {
            acc
        };
        spec_pawn_double_loop(white, clear_lsb64(set), occ, pushm, restrict, a1)
    }
}

#[via_fn]
proof fn spec_pawn_double_loop_decreases(
    white: bool,
    set: u64,
    occ: u64,
    pushm: u64,
    restrict: u64,
    acc: Seq<Move>,
) {
    lemma_clear_lsb_decreases(set);
}

impl MoveGen {
    /// Generate the pawn captures (or capture promotions) of `set`.
    #[verifier::rlimit(60)]
    pub fn generate_pawn_captures(
        board: &ChessBoard,
        atk: &Attacks,
        set: Bitboard,
        restrict: Bitboard,
        capture_map: Bitboard,
        promos: bool,
        out: &mut Vec<Move>,
    )
        requires
            atk.wf(),
            board.pieces.wf(),
            board.state.side_to_move.valid(),
            own_pawn_set(*board, set.0),
            capture_map_ok(*board, capture_map.0),
            moves_ok(*board, old(out)@),
            forall|i: u64|
                i < 64 ==> (#[trigger] bit64(set.0, i) ==> (if board.stm() == WHITE {
                    if promos {
                        i / 8 == 6
                    } else {
                        1 <= i / 8 <= 5
                    }
                } else {
                    if promos {
                        i / 8 == 1
                    } else {
                        2 <= i / 8 <= 6
                    }
                })),
        ensures
            final(out)@ == spec_pawn_cap_loop(
                board.stm(),
                set.0,
                restrict.0,
                capture_map.0,
                promos,
                old(out)@,
            ),
            moves_ok(*board, final(out)@),
            final(out)@.len() >= old(out)@.len(),
            forall|k: int| 0 <= k < old(out)@.len() ==> final(out)@[k] == old(out)@[k],
            forall|k: int|
                old(out)@.len() <= k < final(out)@.len() ==> entry_within(
                    set.0,
                    restrict.0,
                    #[trigger] final(out)@[k],
                ),
    {
        let stm = board.side_to_move();
        let mut bb = set;
        proof {
            lemma_bit_ops();
        }
        while bb.0 != 0
            invariant
                atk.wf(),
                board.pieces.wf(),
                stm == board.state.side_to_move,
                stm.valid(),
                own_pawn_set(*board, set.0),
                capture_map_ok(*board, capture_map.0),
                moves_ok(*board, out@),
                out@.len() >= old(out)@.len(),
                forall|i: u64| i < 64 ==> (#[trigger] bit64(bb.0, i) ==> bit64(set.0, i)),
                forall|i: u64|
                    i < 64 ==> (#[trigger] bit64(set.0, i) ==> (if board.stm() == WHITE {
                        if promos {
                            i / 8 == 6
                        } else {
                            1 <= i / 8 <= 5
                        }
                    } else {
                        if promos {
                            i / 8 == 1
                        } else {
                            2 <= i / 8 <= 6
                        }
                    })),
                forall|k: int| 0 <= k < old(out)@.len() ==> out@[k] == old(out)@[k],
                forall|k: int|
                    old(out)@.len() <= k < out@.len() ==> entry_within(
                        set.0,
                        restrict.0,
                        #[trigger] out@[k],
                    ),
                spec_pawn_cap_loop(board.stm(), bb.0, restrict.0, capture_map.0, promos, out@)
                    == spec_pawn_cap_loop(
                    board.stm(),
                    set.0,
                    restrict.0,
                    capture_map.0,
                    promos,
                    old(out)@,
                ),
            decreases bb.0,
        {
            proof {
                lemma_clear_lsb_decreases(bb.0);
                lemma_bit_ops();
            }
            let from = bb.pop_ls1b_square();
            let targets = Bitboard(
                atk.get_pawn_attacks_for_square(stm, from).0 & capture_map.0 & restrict.0,
            );
            let ghost o1 = out@;
            if promos {
                emit_promos(from, targets, true, out);
            } else {
                emit_targets(from, targets, CAPTURE, out);
            }
            proof {
                assert(bit64(set.0, from.0 as u64));
                assert forall|k: int|
                    old(out)@.len() <= k < out@.len() implies entry_within(
                    set.0,
                    restrict.0,
                    #[trigger] out@[k],
                ) by {
                    if k >= o1.len() {
                        let m = out@[k];
                        if promos {
                            assert(promo_entry_ok(from.0, targets.0, true, m));
                        } else {
                            assert(m.spec_from() == from.0);
                        }
                        assert(bit64(targets.0, m.spec_to() as u64));
                        assert(bit64(restrict.0, m.spec_to() as u64));
                    }
                }
                assert forall|k: int| 0 <= k < out@.len() implies move_ok(
                    *board,
                    #[trigger] out@[k],
                ) by {
                    if k >= o1.len() {
                        let m = out@[k];
                        if promos {
                            assert(promo_entry_ok(from.0, targets.0, true, m));
                            assert(bit64(targets.0, m.spec_to() as u64));
                            assert(bit64(
                                spec_pawn_attacks(board.stm(), from.0),
                                m.spec_to() as u64,
                            ));
                            crate::attacks::lemma_pawn_attack_geometry(
                                board.stm(),
                                from.0 as u64,
                                m.spec_to() as u64,
                            );
                            assert(m.spec_flag() < 16) by {
                                let v = m.0;
                                assert(((v >> 6) & 15) < 16) by (bit_vector);
                            }
                            lemma_promo_move_ok(*board, m, capture_map.0, 0);
                        } else {
                            assert(m.spec_from() == from.0);
                            assert(bit64(targets.0, m.spec_to() as u64));
                            assert(bit64(
                                spec_pawn_attacks(board.stm(), from.0),
                                m.spec_to() as u64,
                            ));
                            crate::attacks::lemma_pawn_attack_geometry(
                                board.stm(),
                                from.0 as u64,
                                m.spec_to() as u64,
                            );
                            assert(bit64(capture_map.0, m.spec_to() as u64));
                            lemma_pawn_capture_move_ok(*board, m, capture_map.0);
                        }
                    }
                }
            }
        }
    }

    /// Generate the single pawn pushes (or push promotions) of `set`.
    #[verifier::rlimit(60)]
    pub fn generate_pawn_pushes(
        board: &ChessBoard,
        set: Bitboard,
        push_map: Bitboard,
        restrict: Bitboard,
        promos: bool,
        out: &mut Vec<Move>,
    )
        requires
            board.pieces.wf(),
            board.state.side_to_move.valid(),
            own_pawn_set(*board, set.0),
            push_map_ok(*board, push_map.0),
            moves_ok(*board, old(out)@),
            forall|i: u64|
                i < 64 ==> (#[trigger] bit64(set.0, i) ==> (if board.stm() == WHITE {
                    if promos {
                        i / 8 == 6
                    } else {
                        1 <= i / 8 <= 5
                    }
                } else {
                    if promos {
                        i / 8 == 1
                    } else {
                        2 <= i / 8 <= 6
                    }
                })),
        ensures
            final(out)@ == spec_pawn_push_loop(
                board.stm() == WHITE,
                set.0,
                push_map.0,
                restrict.0,
                promos,
                old(out)@,
            ),
            moves_ok(*board, final(out)@),
            final(out)@.len() >= old(out)@.len(),
            forall|k: int| 0 <= k < old(out)@.len() ==> final(out)@[k] == old(out)@[k],
            forall|k: int|
                old(out)@.len() <= k < final(out)@.len() ==> entry_within(
                    set.0,
                    restrict.0,
                    #[trigger] final(out)@[k],
                ),
    {
        let white = board.side_to_move().0 == WHITE;
        let mut bb = set;
        proof {
            lemma_bit_ops();
        }
        while bb.0 != 0
            invariant
                board.pieces.wf(),
                white == (board.stm() == WHITE),
                board.state.side_to_move.valid(),
                own_pawn_set(*board, set.0),
                push_map_ok(*board, push_map.0),
                moves_ok(*board, out@),
                out@.len() >= old(out)@.len(),
                forall|i: u64| i < 64 ==> (#[trigger] bit64(bb.0, i) ==> bit64(set.0, i)),
                forall|i: u64|
                    i < 64 ==> (#[trigger] bit64(set.0, i) ==> (if board.stm() == WHITE {
                        if promos {
                            i / 8 == 6
                        } else {
                            1 <= i / 8 <= 5
                        }
                    } else {
                        if promos {
                            i / 8 == 1
                        } else {
                            2 <= i / 8 <= 6
                        }
                    })),
                forall|k: int| 0 <= k < old(out)@.len() ==> out@[k] == old(out)@[k],
                forall|k: int|
                    old(out)@.len() <= k < out@.len() ==> entry_within(
                        set.0,
                        restrict.0,
                        #[trigger] out@[k],
                    ),
                spec_pawn_push_loop(white, bb.0, push_map.0, restrict.0, promos, out@)
                    == spec_pawn_push_loop(white, set.0, push_map.0, restrict.0, promos, old(out)@),
            decreases bb.0,
        {
            proof {
                lemma_clear_lsb_decreases(bb.0);
                lemma_bit_ops();
            }
            let from = bb.pop_ls1b_square();
            proof {
                assert(bit64(set.0, from.0 as u64));
            }
            let to = if white {
                Square(from.0 + 8)
            } else {
                Square(from.0 - 8)
            };
            let hit = Bitboard(push_map.0 & restrict.0).get_bit(to);
            let ghost o1 = out@;
            if hit {
                if promos {
                    emit_promo_set(from, to, false, out);
                } else {
                    out.push(Move::from_squares(from, to, QUIET_MOVE));
                }
                proof {
                    assert forall|k: int| 0 <= k < out@.len() implies move_ok(
                        *board,
                        #[trigger] out@[k],
                    ) by {
                        if k >= o1.len() {
                            let m = out@[k];
                            assert(bit64(push_map.0 & restrict.0, to.0 as u64));
                            assert(bit64(push_map.0, to.0 as u64));
                            if promos {
                                assert(promo_set_entry_ok(from.0, to.0, false, m));
                                lemma_promo_move_ok(*board, m, 0, push_map.0);
                            } else {
                                lemma_pawn_push_move_ok(*board, m, push_map.0);
                            }
                        }
                    }
                    assert forall|k: int|
                        old(out)@.len() <= k < out@.len() implies entry_within(
                        set.0,
                        restrict.0,
                        #[trigger] out@[k],
                    ) by {
                        if k >= o1.len() {
                            let m = out@[k];
                            if promos {
                                assert(promo_set_entry_ok(from.0, to.0, false, m));
                            } else {
                                assert(m.spec_from() == from.0 && m.spec_to() == to.0);
                            }
                            assert(bit64(push_map.0 & restrict.0, to.0 as u64));
                            assert(bit64(restrict.0, to.0 as u64));
                            assert(bit64(set.0, from.0 as u64));
                        }
                    }
                }
            }
        }
    }

    /// Generate the double pawn pushes of `set`.
    #[verifier::rlimit(60)]
    pub fn generate_pawn_doubles(
        board: &ChessBoard,
        set: Bitboard,
        push_map: Bitboard,
        restrict: Bitboard,
        out: &mut Vec<Move>,
    )
        requires
            board.pieces.wf(),
            board.state.side_to_move.valid(),
            own_pawn_set(*board, set.0),
            push_map_ok(*board, push_map.0),
            moves_ok(*board, old(out)@),
            forall|i: u64|
                i < 64 ==> (#[trigger] bit64(set.0, i) ==> (if board.stm() == WHITE {
                    i / 8 == 1
                } else {
                    i / 8 == 6
                })),
        ensures
            final(out)@ == spec_pawn_double_loop(
                board.stm() == WHITE,
                set.0,
                board.pieces.spec_all_occ(),
                push_map.0,
                restrict.0,
                old(out)@,
            ),
            moves_ok(*board, final(out)@),
            final(out)@.len() >= old(out)@.len(),
            forall|k: int| 0 <= k < old(out)@.len() ==> final(out)@[k] == old(out)@[k],
            forall|k: int|
                old(out)@.len() <= k < final(out)@.len() ==> entry_within(
                    set.0,
                    restrict.0,
                    #[trigger] final(out)@[k],
                ),
    {
        let white = board.side_to_move().0 == WHITE;
        let occ = board.get_occupancy();
        let mut bb = set;
        proof {
            lemma_bit_ops();
        }
        while bb.0 != 0
            invariant
                board.pieces.wf(),
                white == (board.stm() == WHITE),
                board.state.side_to_move.valid(),
                occ.0 == board.pieces.spec_all_occ(),
                own_pawn_set(*board, set.0),
                push_map_ok(*board, push_map.0),
                moves_ok(*board, out@),
                out@.len() >= old(out)@.len(),
                forall|i: u64| i < 64 ==> (#[trigger] bit64(bb.0, i) ==> bit64(set.0, i)),
                forall|i: u64|
                    i < 64 ==> (#[trigger] bit64(set.0, i) ==> (if board.stm() == WHITE {
                        i / 8 == 1
                    } else {
                        i / 8 == 6
                    })),
                forall|k: int| 0 <= k < old(out)@.len() ==> out@[k] == old(out)@[k],
                forall|k: int|
                    old(out)@.len() <= k < out@.len() ==> entry_within(
                        set.0,
                        restrict.0,
                        #[trigger] out@[k],
                    ),
                spec_pawn_double_loop(white, bb.0, occ.0, push_map.0, restrict.0, out@)
                    == spec_pawn_double_loop(
                    white,
                    set.0,
                    occ.0,
                    push_map.0,
                    restrict.0,
                    old(out)@,
                ),
            decreases bb.0,
        {
            proof {
                lemma_clear_lsb_decreases(bb.0);
                lemma_bit_ops();
            }
            let from = bb.pop_ls1b_square();
            proof {
                assert(bit64(set.0, from.0 as u64));
            }
            let passing = if white {
                Square(from.0 + 8)
            } else {
                Square(from.0 - 8)
            };
            let to = if white {
                Square(from.0 + 16)
            } else {
                Square(from.0 - 16)
            };
            let hit = !occ.get_bit(passing) && Bitboard(push_map.0 & restrict.0).get_bit(to);
            let ghost o1 = out@;
            if hit {
                out.push(Move::from_squares(from, to, DOUBLE_PUSH));
                proof {
                    crate::make_move::lemma_sq_xor8_pub(to.0);
                    assert forall|k: int| 0 <= k < out@.len() implies move_ok(
                        *board,
                        #[trigger] out@[k],
                    ) by {
                        if k >= o1.len() {
                            let m = out@[k];
                            assert(bit64(push_map.0 & restrict.0, to.0 as u64));
                            assert(bit64(push_map.0, to.0 as u64));
                            assert((to.0 ^ 8) == passing.0);
                            lemma_double_push_move_ok(*board, m, push_map.0);
                        }
                    }
                    assert forall|k: int|
                        old(out)@.len() <= k < out@.len() implies entry_within(
                        set.0,
                        restrict.0,
                        #[trigger] out@[k],
                    ) by {
                        if k >= o1.len() {
                            let m = out@[k];
                            assert(m.spec_from() == from.0 && m.spec_to() == to.0);
                            assert(bit64(push_map.0 & restrict.0, to.0 as u64));
                            assert(bit64(restrict.0, to.0 as u64));
                            assert(bit64(set.0, from.0 as u64));
                        }
                    }
                }
            }
        }
    }
}

/// The castle moves available under the attack map, as a spec value.
pub open spec fn spec_castle_moves(b: ChessBoard, amap: u64, acc: Seq<Move>) -> Seq<Move> {
    let occ = b.pieces.spec_all_occ();
    if b.stm() == WHITE {
        let a1 = if b.state.castle_rights.spec_has(crate::castle_rights::WHITE_KING_RIGHT)
            && !bit64(amap, 5) && !bit64(amap, 6) && !bit64(occ, 5) && !bit64(occ, 6) {
            acc.push(Move(Move::spec_pack(4, 6, KING_SIDE_CASTLE)))
        } else {
            acc
        };
        if b.state.castle_rights.spec_has(crate::castle_rights::WHITE_QUEEN_RIGHT) && !bit64(
            amap,
            2,
        ) && !bit64(amap, 3) && !bit64(occ, 1) && !bit64(occ, 2) && !bit64(occ, 3) {
            a1.push(Move(Move::spec_pack(4, 2, QUEEN_SIDE_CASTLE)))
        } else {
            a1
        }
    } else {
        let a1 = if b.state.castle_rights.spec_has(crate::castle_rights::BLACK_KING_RIGHT)
            && !bit64(amap, 61) && !bit64(amap, 62) && !bit64(occ, 61) && !bit64(occ, 62) {
            acc.push(Move(Move::spec_pack(60, 62, KING_SIDE_CASTLE)))
        } else {
            acc
        };
        if b.state.castle_rights.spec_has(crate::castle_rights::BLACK_QUEEN_RIGHT) && !bit64(
            amap,
            58,
        ) && !bit64(amap, 59) && !bit64(occ, 57) && !bit64(occ, 58) && !bit64(occ, 59) {
            a1.push(Move(Move::spec_pack(60, 58, QUEEN_SIDE_CASTLE)))
        } else {
            a1
        }
    }
}

impl MoveGen {
    /// Generate the king steps: captures, then quiet steps, never into an
    /// attacked square.
    #[verifier::rlimit(60)]
    pub fn generate_king_moves(
        board: &ChessBoard,
        atk: &Attacks,
        attack_map: Bitboard,
        king_square: Square,
        capture_map: Bitboard,
        capture_only: bool,
        out: &mut Vec<Move>,
    )
        requires
            atk.wf(),
            board.pieces.wf(),
            board.state.side_to_move.valid(),
            board.kings_ok(),
            king_square.0 == board.spec_king_sq(board.stm()),
            capture_map_ok(*board, capture_map.0),
            moves_ok(*board, old(out)@),
            attack_map.0 == spec_attack_map(*board, board.stm()),
        ensures
            final(out)@ == (if capture_only {
                spec_emit_targets(
                    king_square.0,
                    spec_king_attacks(king_square.0) & !spec_attack_map(*board, board.stm())
                        & capture_map.0,
                    CAPTURE,
                    old(out)@,
                )
            } else {
                spec_emit_targets(
                    king_square.0,
                    spec_king_attacks(king_square.0) & !spec_attack_map(*board, board.stm())
                        & !board.pieces.spec_all_occ(),
                    QUIET_MOVE,
                    spec_emit_targets(
                        king_square.0,
                        spec_king_attacks(king_square.0) & !spec_attack_map(*board, board.stm())
                            & capture_map.0,
                        CAPTURE,
                        old(out)@,
                    ),
                )
            }),
            moves_ok(*board, final(out)@),
            final(out)@.len() >= old(out)@.len(),
            forall|k: int| 0 <= k < old(out)@.len() ==> final(out)@[k] == old(out)@[k],
            forall|k: int|
                old(out)@.len() <= k < final(out)@.len() ==> (#[trigger] final(out)@[k]).spec_from()
                    == king_square.0,
    {
        let stm = board.side_to_move();
        proof {
            lemma_bit_ops();
            crate::board::lemma_one_bit(
                board.pieces.kings.0 & board.pieces.spec_side_occ(board.stm()),
            );
            assert(bit64(
                board.pieces.kings.0 & board.pieces.spec_side_occ(board.stm()),
                king_square.0 as u64,
            ));
            crate::board::lemma_bits_as_preds(board.pieces, king_square.0 as u64);
            assert(board.pieces.sq_ok(king_square.0 as u64));
        }
        let move_mask = Bitboard(
            atk.get_king_attacks_for_square(king_square).0 & !attack_map.0,
        );
        let ghost o1 = out@;
        emit_targets(king_square, Bitboard(move_mask.0 & capture_map.0), CAPTURE, out);
        proof {
            assert forall|k: int| 0 <= k < out@.len() implies move_ok(*board, #[trigger] out@[k])
                by {
                if k >= o1.len() {
                    let m = out@[k];
                    assert(m.spec_from() == king_square.0);
                    assert(bit64(Bitboard(move_mask.0 & capture_map.0).0, m.spec_to() as u64));
                    assert(bit64(capture_map.0, m.spec_to() as u64));
                    lemma_capture_move_ok(*board, m, capture_map.0);
                }
            }
        }
        if capture_only {
            return ;
        }
        let ghost o2 = out@;
        emit_targets(
            king_square,
            Bitboard(move_mask.0 & !board.get_occupancy().0),
            QUIET_MOVE,
            out,
        );
        proof {
            assert forall|k: int| 0 <= k < out@.len() implies move_ok(*board, #[trigger] out@[k])
                by {
                if k >= o2.len() {
                    let m = out@[k];
                    assert(m.spec_from() == king_square.0);
                    assert(bit64(
                        Bitboard(move_mask.0 & !board.pieces.spec_all_occ()).0,
                        m.spec_to() as u64,
                    ));
                    assert(bit64(!board.pieces.spec_all_occ(), m.spec_to() as u64));
                    assert(!board.pieces.spec_occupied(m.spec_to()));
                    lemma_quiet_push_ok_for_king(*board, m);
                }
            }
        }
    }

    /// Generate the castle moves: the relevant right must be held, the rook
    /// path empty and the king transit path unattacked.
    #[verifier::rlimit(60)]
    pub fn generate_castle_moves(
        board: &ChessBoard,
        attack_map: Bitboard,
        out: &mut Vec<Move>,
    )
        requires
            board.wf(),
            moves_ok(*board, old(out)@),
            attack_map.0 == spec_attack_map(*board, board.stm()),
        ensures
            final(out)@ == spec_castle_moves(*board, attack_map.0, old(out)@),
            moves_ok(*board, final(out)@),
            final(out)@.len() >= old(out)@.len(),
            forall|k: int| 0 <= k < old(out)@.len() ==> final(out)@[k] == old(out)@[k],
            forall|k: int|
                old(out)@.len() <= k < final(out)@.len() ==> (#[trigger] final(out)@[k]).spec_from()
                    == board.spec_king_sq(board.stm()),
    {
        proof {
            lemma_bit_ops();
            assert(KING_SIDE_CASTLE & CAPTURE == 0 && QUEEN_SIDE_CASTLE & CAPTURE == 0)
                by (bit_vector);
            let stm = board.stm();
            let prod = board.pieces.kings.0 & board.pieces.spec_side_occ(stm);
            crate::board::lemma_one_bit(prod);
            let home: u64 = if stm == WHITE {
                4
            } else {
                60
            };
            crate::board::lemma_bits_as_preds(board.pieces, home);
            assert(board.pieces.sq_ok(home));
            if board.pieces.spec_piece_at(home as u8) == KING && board.pieces.spec_color_at(
                home as u8,
            ) == stm {
                assert(bit64(prod, home));
                assert(board.spec_king_sq(stm) == home);
            }
        }
        let occ = board.get_occupancy();
        let rights = board.castle_rights();
        let white = board.side_to_move().0 == WHITE;
        proof {
            assert(board.pieces.sq_ok(0));
            assert(board.pieces.sq_ok(4));
            assert(board.pieces.sq_ok(7));
            assert(board.pieces.sq_ok(56));
            assert(board.pieces.sq_ok(60));
            assert(board.pieces.sq_ok(63));
        }
        if white {
            if rights.has_right(crate::castle_rights::CastleRights(
                crate::castle_rights::WHITE_KING_RIGHT,
            )) && !attack_map.get_bit(Square(5)) && !attack_map.get_bit(Square(6))
                && !occ.get_bit(Square(5)) && !occ.get_bit(Square(6)) {
                out.push(Move::from_squares(Square(4), Square(6), KING_SIDE_CASTLE));
            }
            if rights.has_right(crate::castle_rights::CastleRights(
                crate::castle_rights::WHITE_QUEEN_RIGHT,
            )) && !attack_map.get_bit(Square(2)) && !attack_map.get_bit(Square(3))
                && !occ.get_bit(Square(1)) && !occ.get_bit(Square(2)) && !occ.get_bit(Square(3)) {
                out.push(Move::from_squares(Square(4), Square(2), QUEEN_SIDE_CASTLE));
            }
        } else {
            if rights.has_right(crate::castle_rights::CastleRights(
                crate::castle_rights::BLACK_KING_RIGHT,
            )) && !attack_map.get_bit(Square(61)) && !attack_map.get_bit(Square(62))
                && !occ.get_bit(Square(61)) && !occ.get_bit(Square(62)) {
                out.push(Move::from_squares(Square(60), Square(62), KING_SIDE_CASTLE));
            }
            if rights.has_right(crate::castle_rights::CastleRights(
                crate::castle_rights::BLACK_QUEEN_RIGHT,
            )) && !attack_map.get_bit(Square(58)) && !attack_map.get_bit(Square(59))
                && !occ.get_bit(Square(57)) && !occ.get_bit(Square(58)) && !occ.get_bit(Square(59))
                {
                out.push(Move::from_squares(Square(60), Square(58), QUEEN_SIDE_CASTLE));
            }
        }
    }
}

/// A quiet king step onto an empty square is safe to apply.
proof fn lemma_quiet_push_ok_for_king(b: ChessBoard, m: Move)
    requires
        m.spec_from() < 64,
        m.spec_to() < 64,
        b.pieces.spec_occupied(m.spec_from()),
        b.pieces.spec_color_at(m.spec_from()) == b.stm(),
        b.pieces.spec_piece_at(m.spec_from()) != PAWN,
        !b.pieces.spec_occupied(m.spec_to()),
        m.spec_flag() == QUIET_MOVE,
    ensures
        move_ok(b, m),
{
    assert(QUIET_MOVE & CAPTURE == 0) by (bit_vector);
}

/// The en-passant captures of the candidate pawns, each validated by
/// speculatively applying it and probing the mover's king for attacks.
pub open spec fn spec_ep_loop(b: ChessBoard, cands: u64, acc: Seq<Move>) -> Seq<Move>
    decreases cands,
    via spec_ep_loop_decreases
{
    if cands == 0 {
        acc
    } else {
        let p = lsb64(cands) as u8;
        let mv = Move(Move::spec_pack(p, b.state.en_passant.0, EN_PASSANT));
        let nb = apply_move_spec(b, mv);
        let safe = spec_attackers_to(
            nb,
            b.stm(),
            nb.pieces.spec_all_occ(),
            nb.spec_king_sq(b.stm()) as u8,
        ) == 0;
        let a1 = if safe {
            acc.push(mv)
        } else {
            acc
        };
        spec_ep_loop(b, clear_lsb64(cands), a1)
    }
}

#[via_fn]
proof fn spec_ep_loop_decreases(b: ChessBoard, cands: u64, acc: Seq<Move>) {
    lemma_clear_lsb_decreases(cands);
}

impl MoveGen {
    /// Generate the en-passant captures, probing each on a scratch copy.
    #[verifier::rlimit(60)]
    pub fn handle_en_passant(
        board: &ChessBoard,
        atk: &Attacks,
        cands: Bitboard,
        out: &mut Vec<Move>,
    )
        requires
            atk.wf(),
            board.wf(),
            board.state.half_moves < 255,
            board.state.en_passant.0 != 64,
            own_pawn_set(*board, cands.0),
            forall|i: u64|
                i < 64 ==> (#[trigger] bit64(cands.0, i) ==> bit64(
                    spec_pawn_attacks((1 - board.stm()) as u8, board.state.en_passant.0),
                    i,
                )),
            moves_ok(*board, old(out)@),
        ensures
            final(out)@ == spec_ep_loop(*board, cands.0, old(out)@),
            moves_ok(*board, final(out)@),
            final(out)@.len() >= old(out)@.len(),
            forall|k: int| 0 <= k < old(out)@.len() ==> final(out)@[k] == old(out)@[k],
            forall|k: int|
                old(out)@.len() <= k < final(out)@.len() ==> (#[trigger] final(out)@[k]).spec_flag()
                    == EN_PASSANT,
    {
        let stm = board.side_to_move();
        let ep = board.en_passant_square();
        let mut bb = cands;
        proof {
            lemma_bit_ops();
        }
        while bb.0 != 0
            invariant
                atk.wf(),
                board.wf(),
                board.state.half_moves < 255,
                stm == board.state.side_to_move,
                ep == board.state.en_passant,
                ep.0 != 64,
                own_pawn_set(*board, cands.0),
                forall|i: u64|
                    i < 64 ==> (#[trigger] bit64(cands.0, i) ==> bit64(
                        spec_pawn_attacks((1 - board.stm()) as u8, board.state.en_passant.0),
                        i,
                    )),
                moves_ok(*board, out@),
                out@.len() >= old(out)@.len(),
                forall|i: u64| i < 64 ==> (#[trigger] bit64(bb.0, i) ==> bit64(cands.0, i)),
                forall|k: int| 0 <= k < old(out)@.len() ==> out@[k] == old(out)@[k],
                forall|k: int|
                    old(out)@.len() <= k < out@.len() ==> (#[trigger] out@[k]).spec_flag()
                        == EN_PASSANT,
                spec_ep_loop(*board, bb.0, out@) == spec_ep_loop(*board, cands.0, old(out)@),
            decreases bb.0,
        {
            proof {
                lemma_clear_lsb_decreases(bb.0);
                lemma_bit_ops();
            }
            let from = bb.pop_ls1b_square();
            let mv = Move::from_squares(from, ep, EN_PASSANT);
            proof {
                assert(bit64(cands.0, from.0 as u64));
                assert(bit64(
                    spec_pawn_attacks((1 - board.stm()) as u8, board.state.en_passant.0),
                    from.0 as u64,
                ));
                crate::attacks::lemma_pawn_attack_geometry(
                    (1 - board.stm()) as u8,
                    ep.0 as u64,
                    from.0 as u64,
                );
                assert(EN_PASSANT & CAPTURE != 0 && EN_PASSANT != 6 && EN_PASSANT != 7)
                    by (bit_vector);
                assert(move_ok(*board, mv));
            }
            let mut board_copy = *board;
            board_copy.make_move(mv);
            let king = board_copy.get_king_square(stm);
            if !board_copy.is_square_attacked(atk, stm, king) {
                out.push(mv);
            }
        }
    }
}

/// All pawn moves of the side to move: captures split by pin status and
/// promotion rank, en-passant, then pushes, push promotions and double pushes.
pub open spec fn spec_pawn_section(
    b: ChessBoard,
    d: u64,
    o: u64,
    pushm: u64,
    capm: u64,
    cap_only: bool,
    acc: Seq<Move>,
) -> Seq<Move> {
    let stm = b.stm();
    let white = stm == WHITE;
    let own = b.pieces.spec_side_occ(stm);
    let pawns_own = b.pieces.pawns.0 & own;
    let pushable = pawns_own & !d;
    let attackers = pawns_own & !o;
    let promo = if white {
        RANK_7
    } else {
        RANK_2
    };
    let dbl = if white {
        RANK_2
    } else {
        RANK_7
    };
    let full = crate::bitboard::FULL_BOARD;
    let a1 = spec_pawn_cap_loop(stm, attackers & !d & !promo, full, capm, false, acc);
    let a2 = spec_pawn_cap_loop(stm, attackers & d & !promo, d, capm, false, a1);
    let a3 = spec_pawn_cap_loop(stm, attackers & !d & promo, full, capm, true, a2);
    let a4 = spec_pawn_cap_loop(stm, attackers & d & promo, d, capm, true, a3);
    let a5 = if b.state.en_passant.0 != 64 {
        spec_ep_loop(b, spec_pawn_attacks((1 - stm) as u8, b.state.en_passant.0) & attackers, a4)
    } else {
        a4
    };
    if cap_only {
        a5
    } else {
        let a6 = spec_pawn_push_loop(white, pushable & !o & !promo, pushm, full, false, a5);
        let a7 = spec_pawn_push_loop(white, pushable & o & !promo, pushm, o, false, a6);
        let a8 = spec_pawn_push_loop(white, pushable & !o & promo, pushm, full, true, a7);
        let a9 = spec_pawn_push_loop(white, pushable & o & promo, pushm, o, true, a8);
        let a10 = spec_pawn_double_loop(white, pushable & !o & dbl, b.pieces.spec_all_occ(), pushm, full, a9);
        spec_pawn_double_loop(white, pushable & o & dbl, b.pieces.spec_all_occ(), pushm, o, a10)
    }
}

impl MoveGen {
    /// Generate every pawn move.
    #[verifier::rlimit(100)]
    pub fn generate_pawn_moves(
        board: &ChessBoard,
        atk: &Attacks,
        push_map: Bitboard,
        capture_map: Bitboard,
        diag_pins: Bitboard,
        orto_pins: Bitboard,
        capture_only: bool,
        out: &mut Vec<Move>,
    )
        requires
            atk.wf(),
            board.wf(),
            board.state.half_moves < 255,
            push_map_ok(*board, push_map.0),
            capture_map_ok(*board, capture_map.0),
            moves_ok(*board, old(out)@),
        ensures
            final(out)@ == spec_pawn_section(
                *board,
                diag_pins.0,
                orto_pins.0,
                push_map.0,
                capture_map.0,
                capture_only,
                old(out)@,
            ),
            moves_ok(*board, final(out)@),
            final(out)@.len() >= old(out)@.len(),
            forall|k: int| 0 <= k < old(out)@.len() ==> final(out)@[k] == old(out)@[k],
            forall|k: int|
                old(out)@.len() <= k < final(out)@.len() ==> pawn_pin_ok(
                    diag_pins.0,
                    orto_pins.0,
                    #[trigger] final(out)@[k],
                ),
    {
        let stm = board.side_to_move();
        let white = stm.0 == WHITE;
        let own = board.get_occupancy_for_side(stm);
        let pawns_own = Bitboard(board.pieces.pawns.0 & own.0);
        let pushable = Bitboard(pawns_own.0 & !diag_pins.0);
        let attackers = Bitboard(pawns_own.0 & !orto_pins.0);
        let promo: u64 = if white {
            RANK_7
        } else {
            RANK_2
        };
        let dbl: u64 = if white {
            RANK_2
        } else {
            RANK_7
        };
        let full: u64 = crate::bitboard::FULL_BOARD;
        proof {
            lemma_bit_ops();
            assert forall|i: u64| i < 64 implies (#[trigger] bit64(pawns_own.0, i)
                ==> board.pieces.spec_occupied(i as u8) && board.pieces.spec_color_at(i as u8)
                == board.stm() && board.pieces.spec_piece_at(i as u8) == PAWN && 1 <= i / 8
                <= 6) by {
                assert(board.pieces.sq_ok(i));
                crate::board::lemma_bits_as_preds(board.pieces, i);
                if bit64(pawns_own.0, i) {
                    assert(bit64(board.pieces.pawns.0, i));
                }
            }
            assert forall|i: u64| i < 64 implies (bit64(full, i)) by {
                assert(i < 64 ==> bit64(0xFFFF_FFFF_FFFF_FFFFu64, i)) by (bit_vector);
            }
            assert forall|i: u64| i < 64 implies #[trigger] bit64(promo, i) == (i / 8 == (if white {
                6int
            } else {
                1int
            })) by {
                lemma_rank_masks(i);
            }
            assert forall|i: u64| i < 64 implies #[trigger] bit64(dbl, i) == (i / 8 == (if white {
                1int
            } else {
                6int
            })) by {
                lemma_rank_masks(i);
            }
        }
        let ghost b = *board;
        let ghost vprev = out@;
        MoveGen::generate_pawn_captures(
            board,
            atk,
            Bitboard(attackers.0 & !diag_pins.0 & !promo),
            Bitboard(full),
            capture_map,
            false,
            out,
        );
        proof {
            lemma_bit_ops();
            assert forall|k: int|
                old(out)@.len() <= k < out@.len() implies pawn_pin_ok(
                diag_pins.0,
                orto_pins.0,
                #[trigger] out@[k],
            ) by {
                if k < vprev.len() {
                    assert(out@[k] == vprev[k]);
                } else {
                    let m = out@[k];
                    assert(entry_within(attackers.0 & !diag_pins.0 & !promo, full, m));
                    assert(bit64(attackers.0 & !diag_pins.0 & !promo, m.spec_from() as u64));
                }
            }
        }

        let ghost vprev = out@;
        MoveGen::generate_pawn_captures(
            board,
            atk,
            Bitboard(attackers.0 & diag_pins.0 & !promo),
            diag_pins,
            capture_map,
            false,
            out,
        );
        proof {
            lemma_bit_ops();
            assert forall|k: int|
                old(out)@.len() <= k < out@.len() implies pawn_pin_ok(
                diag_pins.0,
                orto_pins.0,
                #[trigger] out@[k],
            ) by {
                if k < vprev.len() {
                    assert(out@[k] == vprev[k]);
                } else {
                    let m = out@[k];
                    assert(entry_within(attackers.0 & diag_pins.0 & !promo, diag_pins.0, m));
                    assert(bit64(attackers.0 & diag_pins.0 & !promo, m.spec_from() as u64));
                }
            }
        }

        let ghost vprev = out@;
        MoveGen::generate_pawn_captures(
            board,
            atk,
            Bitboard(attackers.0 & !diag_pins.0 & promo),
            Bitboard(full),
            capture_map,
            true,
            out,
        );
        proof {
            lemma_bit_ops();
            assert forall|k: int|
                old(out)@.len() <= k < out@.len() implies pawn_pin_ok(
                diag_pins.0,
                orto_pins.0,
                #[trigger] out@[k],
            ) by {
                if k < vprev.len() {
                    assert(out@[k] == vprev[k]);
                } else {
                    let m = out@[k];
                    assert(entry_within(attackers.0 & !diag_pins.0 & promo, full, m));
                    assert(bit64(attackers.0 & !diag_pins.0 & promo, m.spec_from() as u64));
                }
            }
        }

        let ghost vprev = out@;
        MoveGen::generate_pawn_captures(
            board,
            atk,
            Bitboard(attackers.0 & diag_pins.0 & promo),
            diag_pins,
            capture_map,
            true,
            out,
        );
        proof {
            lemma_bit_ops();
            assert forall|k: int|
                old(out)@.len() <= k < out@.len() implies pawn_pin_ok(
                diag_pins.0,
                orto_pins.0,
                #[trigger] out@[k],
            ) by {
                if k < vprev.len() {
                    assert(out@[k] == vprev[k]);
                } else {
                    let m = out@[k];
                    assert(entry_within(attackers.0 & diag_pins.0 & promo, diag_pins.0, m));
                    assert(bit64(attackers.0 & diag_pins.0 & promo, m.spec_from() as u64));
                }
            }
        }

        let ep = board.en_passant_square();
        if ep.0 != 64 {
            proof {
                assert(ep.0 < 64);
            }
            let cands = Bitboard(
                atk.get_pawn_attacks_for_square(stm.flipped(), ep).0 & attackers.0,
            );
            let ghost vprev = out@;
            MoveGen::handle_en_passant(board, atk, cands, out);
            proof {
                assert forall|k: int|
                    old(out)@.len() <= k < out@.len() implies pawn_pin_ok(
                    diag_pins.0,
                    orto_pins.0,
                    #[trigger] out@[k],
                ) by {
                    if k < vprev.len() {
                        assert(out@[k] == vprev[k]);
                    } else {
                        assert(out@[k].spec_flag() == EN_PASSANT);
                    }
                }
            }
        }
        if capture_only {
            return ;
        }
        let ghost vprev = out@;
        MoveGen::generate_pawn_pushes(
            board,
            Bitboard(pushable.0 & !orto_pins.0 & !promo),
            push_map,
            Bitboard(full),
            false,
            out,
        );
        proof {
            lemma_bit_ops();
            assert forall|k: int|
                old(out)@.len() <= k < out@.len() implies pawn_pin_ok(
                diag_pins.0,
                orto_pins.0,
                #[trigger] out@[k],
            ) by {
                if k < vprev.len() {
                    assert(out@[k] == vprev[k]);
                } else {
                    let m = out@[k];
                    assert(entry_within(pushable.0 & !orto_pins.0 & !promo, full, m));
                    assert(bit64(pushable.0 & !orto_pins.0 & !promo, m.spec_from() as u64));
                }
            }
        }

        let ghost vprev = out@;
        MoveGen::generate_pawn_pushes(
            board,
            Bitboard(pushable.0 & orto_pins.0 & !promo),
            push_map,
            orto_pins,
            false,
            out,
        );
        proof {
            lemma_bit_ops();
            assert forall|k: int|
                old(out)@.len() <= k < out@.len() implies pawn_pin_ok(
                diag_pins.0,
                orto_pins.0,
                #[trigger] out@[k],
            ) by {
                if k < vprev.len() {
                    assert(out@[k] == vprev[k]);
                } else {
                    let m = out@[k];
                    assert(entry_within(pushable.0 & orto_pins.0 & !promo, orto_pins.0, m));
                    assert(bit64(pushable.0 & orto_pins.0 & !promo, m.spec_from() as u64));
                }
            }
        }

        let ghost vprev = out@;
        MoveGen::generate_pawn_pushes(
            board,
            Bitboard(pushable.0 & !orto_pins.0 & promo),
            push_map,
            Bitboard(full),
            true,
            out,
        );
        proof {
            lemma_bit_ops();
            assert forall|k: int|
                old(out)@.len() <= k < out@.len() implies pawn_pin_ok(
                diag_pins.0,
                orto_pins.0,
                #[trigger] out@[k],
            ) by {
                if k < vprev.len() {
                    assert(out@[k] == vprev[k]);
                } else {
                    let m = out@[k];
                    assert(entry_within(pushable.0 & !orto_pins.0 & promo, full, m));
                    assert(bit64(pushable.0 & !orto_pins.0 & promo, m.spec_from() as u64));
                }
            }
        }

        let ghost vprev = out@;
        MoveGen::generate_pawn_pushes(
            board,
            Bitboard(pushable.0 & orto_pins.0 & promo),
            push_map,
            orto_pins,
            true,
            out,
        );
        proof {
            lemma_bit_ops();
            assert forall|k: int|
                old(out)@.len() <= k < out@.len() implies pawn_pin_ok(
                diag_pins.0,
                orto_pins.0,
                #[trigger] out@[k],
            ) by {
                if k < vprev.len() {
                    assert(out@[k] == vprev[k]);
                } else {
                    let m = out@[k];
                    assert(entry_within(pushable.0 & orto_pins.0 & promo, orto_pins.0, m));
                    assert(bit64(pushable.0 & orto_pins.0 & promo, m.spec_from() as u64));
                }
            }
        }

        let ghost vprev = out@;
        MoveGen::generate_pawn_doubles(
            board,
            Bitboard(pushable.0 & !orto_pins.0 & dbl),
            push_map,
            Bitboard(full),
            out,
        );
        proof {
            lemma_bit_ops();
            assert forall|k: int|
                old(out)@.len() <= k < out@.len() implies pawn_pin_ok(
                diag_pins.0,
                orto_pins.0,
                #[trigger] out@[k],
            ) by {
                if k < vprev.len() {
                    assert(out@[k] == vprev[k]);
                } else {
                    let m = out@[k];
                    assert(entry_within(pushable.0 & !orto_pins.0 & dbl, full, m));
                    assert(bit64(pushable.0 & !orto_pins.0 & dbl, m.spec_from() as u64));
                }
            }
        }

        let ghost vprev = out@;
        MoveGen::generate_pawn_doubles(
            board,
            Bitboard(pushable.0 & orto_pins.0 & dbl),
            push_map,
            orto_pins,
            out,
        );
        proof {
            lemma_bit_ops();
            assert forall|k: int|
                old(out)@.len() <= k < out@.len() implies pawn_pin_ok(
                diag_pins.0,
                orto_pins.0,
                #[trigger] out@[k],
            ) by {
                if k < vprev.len() {
                    assert(out@[k] == vprev[k]);
                } else {
                    let m = out@[k];
                    assert(entry_within(pushable.0 & orto_pins.0 & dbl, orto_pins.0, m));
                    assert(bit64(pushable.0 & orto_pins.0 & dbl, m.spec_from() as u64));
                }
            }
        }

    }
}

/// The full (or capture-only) legal move list of a position: the
/// deterministic order this generator produces.
pub open spec fn spec_gen_moves(b: ChessBoard, cap_only: bool) -> Seq<Move> {
    let stm = b.stm();
    let king = b.spec_king_sq(stm) as u8;
    let amap = spec_attack_map(b, stm);
    let pins = spec_pin_masks(b, stm);
    let occ = b.pieces.spec_all_occ();
    let opp_occ = b.pieces.spec_side_occ((1 - stm) as u8);
    let capm = opp_occ & !b.pieces.kings.0;
    let checkers = spec_checkers(b);
    let own = b.pieces.spec_side_occ(stm);
    let katt = spec_king_attacks(king) & !amap;
    let km0 = spec_emit_targets(king, katt & capm, CAPTURE, Seq::empty());
    let km = if cap_only {
        km0
    } else {
        spec_emit_targets(king, katt & !occ, QUIET_MOVE, km0)
    };
    if checkers == 0 {
        let a0 = if cap_only {
            km
        } else {
            spec_castle_moves(b, amap, km)
        };
        spec_nonking_sections(b, pins.0, pins.1, !occ, capm, cap_only, a0)
    } else if crate::board::one_bit64(checkers) {
        let checker = lsb64(checkers);
        let pushm = spec_ray(king, checker as u8) & !(1u64 << checker) & !occ;
        let ccapm = checkers & !b.pieces.kings.0;
        spec_nonking_sections(b, pins.0, pins.1, pushm, ccapm, cap_only, km)
    } else {
        km
    }
}

/// The pawn, knight, bishop and rook/queen sections, in that order.
pub open spec fn spec_nonking_sections(
    b: ChessBoard,
    d: u64,
    o: u64,
    pushm: u64,
    capm: u64,
    cap_only: bool,
    acc: Seq<Move>,
) -> Seq<Move> {
    let stm = b.stm();
    let own = b.pieces.spec_side_occ(stm);
    let occ = b.pieces.spec_all_occ();
    let full = crate::bitboard::FULL_BOARD;
    let a1 = spec_pawn_section(b, d, o, pushm, capm, cap_only, acc);
    let knights = b.pieces.knights.0 & own & !d & !o;
    let a2 = spec_piece_loop(KNIGHT, occ, knights, full, pushm, capm, cap_only, a1);
    let bq = (b.pieces.bishops.0 | b.pieces.queens.0) & own & !o;
    let a3 = spec_piece_loop(BISHOP, occ, bq & !d, full, pushm, capm, cap_only, a2);
    let a4 = spec_piece_loop(BISHOP, occ, bq & d, d, pushm, capm, cap_only, a3);
    let rq = (b.pieces.rooks.0 | b.pieces.queens.0) & own & !d;
    let a5 = spec_piece_loop(ROOK, occ, rq & !o, full, pushm, capm, cap_only, a4);
    spec_piece_loop(ROOK, occ, rq & o, o, pushm, capm, cap_only, a5)
}

impl ChessBoard {
    /// Generate every legal move (or, when `capture_only`, the captures) of
    /// the side to move, in a deterministic order.
    #[verifier::rlimit(100)]
    pub fn map_moves_internal(&self, atk: &Attacks, capture_only: bool) -> (moves: Vec<Move>)
        requires
            atk.wf(),
            self.wf(),
            self.state.half_moves < 255,
        ensures
            moves@ == spec_gen_moves(*self, capture_only),
            moves_ok(*self, moves@),
            moves_pin_safe(*self, moves@),
            popcnt64(spec_checkers(*self)) > 1 ==> forall|k: int|
                0 <= k < moves@.len() ==> (#[trigger] moves@[k]).spec_from() == self.spec_king_sq(
                    self.stm(),
                ),
    {
        let stm = self.side_to_move();
        let attack_map = self.generate_attack_map(atk, stm);
        let king_square = self.get_king_square(stm);
        let (diag_pins, orto_pins) = self.generate_pin_masks(atk, stm);
        let checkers = self.generate_checkers_mask(atk);
        let occ = self.get_occupancy();
        let opp_occ = self.get_occupancy_for_side(stm.flipped());
        let capm = Bitboard(opp_occ.0 & !self.pieces.kings.0);
        let mut out: Vec<Move> = Vec::new();
        proof {
            lemma_bit_ops();
            assert(capture_map_ok(*self, capm.0)) by {
                assert forall|t: u64| t < 64 implies (#[trigger] bit64(capm.0, t)
                    ==> self.pieces.spec_occupied(t as u8) && self.pieces.spec_color_at(t as u8)
                    == 1 - self.stm() && self.pieces.spec_piece_at(t as u8) != KING) by {
                    assert(self.pieces.sq_ok(t));
                    crate::board::lemma_bits_as_preds(self.pieces, t);
                }
            }
        }
        MoveGen::generate_king_moves(
            self,
            atk,
            attack_map,
            king_square,
            capm,
            capture_only,
            &mut out,
        );
        let ghost vk = out@;
        if checkers.0 == 0 {
            if !capture_only {
                MoveGen::generate_castle_moves(self, attack_map, &mut out);
            }
            let ghost vc = out@;
            let push_map = Bitboard(!occ.0);
            proof {
                assert(push_map_ok(*self, push_map.0)) by {
                    assert forall|t: u64| t < 64 implies (#[trigger] bit64(push_map.0, t)
                        ==> !self.pieces.spec_occupied(t as u8)) by {}
                }
            }
            self.nonking_sections(
                atk,
                diag_pins,
                orto_pins,
                push_map,
                capm,
                capture_only,
                &mut out,
            );
            proof {
                assert forall|k: int| 0 <= k < out@.len() implies pin_safe(
                    *self,
                    #[trigger] out@[k],
                ) by {
                    if k < vk.len() {
                        assert(out@[k] == vc[k] && vc[k] == vk[k]);
                        assert(out@[k].spec_from() == self.spec_king_sq(self.stm()));
                    } else if k < vc.len() {
                        assert(out@[k] == vc[k]);
                        assert(out@[k].spec_from() == self.spec_king_sq(self.stm()));
                    } else {
                        assert(pawn_pin_ok(diag_pins.0, orto_pins.0, out@[k]));
                    }
                }
            }
        } else if (checkers.0 & checkers.0.wrapping_sub(1)) == 0 {
            proof {
                crate::bitboard::lemma_multiple_bits(checkers.0);
            }
            let checker = Bitboard(checkers.0).ls1b_square();
            let ray = Rays::get_ray(king_square, checker);
            let push_map = Bitboard(ray.0 & !(1u64 << checker.0) & !occ.0);
            let ccapm = Bitboard(checkers.0 & !self.pieces.kings.0);
            proof {
                assert(push_map_ok(*self, push_map.0)) by {
                    assert forall|t: u64| t < 64 implies (#[trigger] bit64(push_map.0, t)
                        ==> !self.pieces.spec_occupied(t as u8)) by {}
                }
                assert(capture_map_ok(*self, ccapm.0)) by {
                    assert forall|t: u64| t < 64 implies (#[trigger] bit64(ccapm.0, t)
                        ==> self.pieces.spec_occupied(t as u8) && self.pieces.spec_color_at(t as u8)
                        == 1 - self.stm() && self.pieces.spec_piece_at(t as u8) != KING) by {
                        assert(self.pieces.sq_ok(t));
                        crate::board::lemma_bits_as_preds(self.pieces, t);
                        if bit64(ccapm.0, t) {
                            assert(bit64(spec_checkers(*self), t));
                            assert(bit64(
                                self.pieces.spec_side_occ((1 - self.stm()) as u8),
                                t,
                            ));
                        }
                    }
                }
            }
            self.nonking_sections(
                atk,
                diag_pins,
                orto_pins,
                push_map,
                ccapm,
                capture_only,
                &mut out,
            );
            proof {
                assert forall|k: int| 0 <= k < out@.len() implies pin_safe(
                    *self,
                    #[trigger] out@[k],
                ) by {
                    if k < vk.len() {
                        assert(out@[k] == vk[k]);
                        assert(out@[k].spec_from() == self.spec_king_sq(self.stm()));
                    } else {
                        assert(pawn_pin_ok(diag_pins.0, orto_pins.0, out@[k]));
                    }
                }
            }
        } else {
            proof {
                crate::bitboard::lemma_multiple_bits(checkers.0);
                assert forall|k: int| 0 <= k < out@.len() implies (#[trigger] out@[k]).spec_from()
                    == king_square.0 by {}
                assert forall|k: int| 0 <= k < out@.len() implies pin_safe(
                    *self,
                    #[trigger] out@[k],
                ) by {
                    assert(out@[k].spec_from() == self.spec_king_sq(self.stm()));
                }
            }
        }
        out
    }

    /// The pawn, knight, bishop and rook/queen sections of the generator.
    #[verifier::rlimit(100)]
    fn nonking_sections(
        &self,
        atk: &Attacks,
        diag_pins: Bitboard,
        orto_pins: Bitboard,
        push_map: Bitboard,
        capm: Bitboard,
        capture_only: bool,
        out: &mut Vec<Move>,
    )
        requires
            atk.wf(),
            self.wf(),
            self.state.half_moves < 255,
            push_map_ok(*self, push_map.0),
            capture_map_ok(*self, capm.0),
            moves_ok(*self, old(out)@),
        ensures
            final(out)@ == spec_nonking_sections(
                *self,
                diag_pins.0,
                orto_pins.0,
                push_map.0,
                capm.0,
                capture_only,
                old(out)@,
            ),
            moves_ok(*self, final(out)@),
            forall|k: int| 0 <= k < old(out)@.len() ==> final(out)@[k] == old(out)@[k],
            final(out)@.len() >= old(out)@.len(),
            forall|k: int|
                old(out)@.len() <= k < final(out)@.len() ==> pawn_pin_ok(
                    diag_pins.0,
                    orto_pins.0,
                    #[trigger] final(out)@[k],
                ),
    {
        let stm = self.side_to_move();
        let own = self.get_occupancy_for_side(stm);
        let full: u64 = crate::bitboard::FULL_BOARD;
        proof {
            lemma_bit_ops();
            assert forall|i: u64| i < 64 implies (#[trigger] bit64(
                self.pieces.knights.0 & own.0,
                i,
            ) ==> self.pieces.spec_occupied(i as u8) && self.pieces.spec_color_at(i as u8)
                == self.stm() && self.pieces.spec_piece_at(i as u8) != PAWN) by {
                assert(self.pieces.sq_ok(i));
                crate::board::lemma_bits_as_preds(self.pieces, i);
            }
            assert forall|i: u64| i < 64 implies (#[trigger] bit64(
                (self.pieces.bishops.0 | self.pieces.queens.0) & own.0,
                i,
            ) ==> self.pieces.spec_occupied(i as u8) && self.pieces.spec_color_at(i as u8)
                == self.stm() && self.pieces.spec_piece_at(i as u8) != PAWN) by {
                assert(self.pieces.sq_ok(i));
                crate::board::lemma_bits_as_preds(self.pieces, i);
            }
            assert forall|i: u64| i < 64 implies (#[trigger] bit64(
                (self.pieces.rooks.0 | self.pieces.queens.0) & own.0,
                i,
            ) ==> self.pieces.spec_occupied(i as u8) && self.pieces.spec_color_at(i as u8)
                == self.stm() && self.pieces.spec_piece_at(i as u8) != PAWN) by {
                assert(self.pieces.sq_ok(i));
                crate::board::lemma_bits_as_preds(self.pieces, i);
            }
        }
        let ghost vprev = out@;
        MoveGen::generate_pawn_moves(
            self,
            atk,
            push_map,
            capm,
            diag_pins,
            orto_pins,
            capture_only,
            out,
        );
        proof {
            assert forall|k: int|
                old(out)@.len() <= k < out@.len() implies pawn_pin_ok(
                diag_pins.0,
                orto_pins.0,
                #[trigger] out@[k],
            ) by {
                if k < vprev.len() {
                    assert(out@[k] == vprev[k]);
                }
            }
        }

        let knights = Bitboard(self.pieces.knights.0 & own.0 & !diag_pins.0 & !orto_pins.0);
        let ghost vprev = out@;
        MoveGen::generate_piece_moves(
            self,
            atk,
            KNIGHT,
            knights,
            Bitboard(full),
            push_map,
            capm,
            capture_only,
            out,
        );
        proof {
            lemma_bit_ops();
            assert forall|k: int|
                old(out)@.len() <= k < out@.len() implies pawn_pin_ok(
                diag_pins.0,
                orto_pins.0,
                #[trigger] out@[k],
            ) by {
                if k < vprev.len() {
                    assert(out@[k] == vprev[k]);
                } else {
                    let m = out@[k];
                    assert(entry_within(knights.0, full, m));
                    assert(bit64(knights.0, m.spec_from() as u64));
                }
            }
        }

        let bq = Bitboard((self.pieces.bishops.0 | self.pieces.queens.0) & own.0 & !orto_pins.0);
        let ghost vprev = out@;
        MoveGen::generate_piece_moves(
            self,
            atk,
            BISHOP,
            Bitboard(bq.0 & !diag_pins.0),
            Bitboard(full),
            push_map,
            capm,
            capture_only,
            out,
        );
        proof {
            lemma_bit_ops();
            assert forall|k: int|
                old(out)@.len() <= k < out@.len() implies pawn_pin_ok(
                diag_pins.0,
                orto_pins.0,
                #[trigger] out@[k],
            ) by {
                if k < vprev.len() {
                    assert(out@[k] == vprev[k]);
                } else {
                    let m = out@[k];
                    assert(entry_within(bq.0 & !diag_pins.0, full, m));
                    assert(bit64(bq.0 & !diag_pins.0, m.spec_from() as u64));
                }
            }
        }

        let ghost vprev = out@;
        MoveGen::generate_piece_moves(
            self,
            atk,
            BISHOP,
            Bitboard(bq.0 & diag_pins.0),
            diag_pins,
            push_map,
            capm,
            capture_only,
            out,
        );
        proof {
            lemma_bit_ops();
            assert forall|k: int|
                old(out)@.len() <= k < out@.len() implies pawn_pin_ok(
                diag_pins.0,
                orto_pins.0,
                #[trigger] out@[k],
            ) by {
                if k < vprev.len() {
                    assert(out@[k] == vprev[k]);
                } else {
                    let m = out@[k];
                    assert(entry_within(bq.0 & diag_pins.0, diag_pins.0, m));
                    assert(bit64(bq.0 & diag_pins.0, m.spec_from() as u64));
                }
            }
        }

        let rq = Bitboard((self.pieces.rooks.0 | self.pieces.queens.0) & own.0 & !diag_pins.0);
        let ghost vprev = out@;
        MoveGen::generate_piece_moves(
            self,
            atk,
            ROOK,
            Bitboard(rq.0 & !orto_pins.0),
            Bitboard(full),
            push_map,
            capm,
            capture_only,
            out,
        );
        proof {
            lemma_bit_ops();
            assert forall|k: int|
                old(out)@.len() <= k < out@.len() implies pawn_pin_ok(
                diag_pins.0,
                orto_pins.0,
                #[trigger] out@[k],
            ) by {
                if k < vprev.len() {
                    assert(out@[k] == vprev[k]);
                } else {
                    let m = out@[k];
                    assert(entry_within(rq.0 & !orto_pins.0, full, m));
                    assert(bit64(rq.0 & !orto_pins.0, m.spec_from() as u64));
                }
            }
        }

        let ghost vprev = out@;
        MoveGen::generate_piece_moves(
            self,
            atk,
            ROOK,
            Bitboard(rq.0 & orto_pins.0),
            orto_pins,
            push_map,
            capm,
            capture_only,
            out,
        );
        proof {
            lemma_bit_ops();
            assert forall|k: int|
                old(out)@.len() <= k < out@.len() implies pawn_pin_ok(
                diag_pins.0,
                orto_pins.0,
                #[trigger] out@[k],
            ) by {
                if k < vprev.len() {
                    assert(out@[k] == vprev[k]);
                } else {
                    let m = out@[k];
                    assert(entry_within(rq.0 & orto_pins.0, orto_pins.0, m));
                    assert(bit64(rq.0 & orto_pins.0, m.spec_from() as u64));
                }
            }
        }

    }

    /// Generate every legal move of the side to move.
    pub fn map_moves(&self, atk: &Attacks) -> (moves: Vec<Move>)
        requires
            atk.wf(),
            self.wf(),
            self.state.half_moves < 255,
        ensures
            moves@ == spec_gen_moves(*self, false),
            moves_ok(*self, moves@),
            moves_pin_safe(*self, moves@),
    {
        self.map_moves_internal(atk, false)
    }

    /// Generate the legal captures of the side to move: a subset of the full
    /// move list.
    pub fn map_captures(&self, atk: &Attacks) -> (moves: Vec<Move>)
        requires
            atk.wf(),
            self.wf(),
            self.state.half_moves < 255,
        ensures
            moves@ == spec_gen_moves(*self, true),
            moves_ok(*self, moves@),
            moves_pin_safe(*self, moves@),
    {
        self.map_moves_internal(atk, true)
    }
}

} // verus!
