//! Textual position import and export.
use vstd::prelude::*;
use crate::attacks::Attacks;
use crate::bitboard::Bitboard;
use crate::bits::{bit64, lemma_bit_ops};
use crate::board::{ChessBoard, ChessBoardPieces};
use crate::castle_rights::{
    CastleRights, BLACK_KING_RIGHT, BLACK_QUEEN_RIGHT, WHITE_KING_RIGHT, WHITE_QUEEN_RIGHT,
};
use crate::piece::{phase_value, Piece, spec_piece_char, BISHOP, KING, KNIGHT, NO_PIECE, PAWN, QUEEN, ROOK};
use crate::side::{Side, BLACK, WHITE};
use crate::moves::Move;
use crate::square::{Square, NULL_SQUARE};
use crate::strutil::{ascii_to_string, spec_chars_of, spec_dec_bytes};
use vstd::string::StrSliceExecFns;
use vstd::string::StringExecFns;

verus! {

/// A textual position description, split into its six fields.
pub struct FEN {
    pub board: Vec<String>,
    pub side_to_move: String,
    pub castle_rights: String,
    pub en_passant_square: String,
    pub half_move_counter: String,
    pub full_move_counter: String,
}

/// All fields of the description are ASCII and there are eight rank fields.
pub open spec fn fen_wf(f: FEN) -> bool {
    &&& f.board@.len() == 8
    &&& forall|i: int| 0 <= i < 8 ==> vstd::utf8::is_ascii_chars((#[trigger] f.board@[i])@)
    &&& vstd::utf8::is_ascii_chars(f.side_to_move@)
    &&& vstd::utf8::is_ascii_chars(f.castle_rights@)
    &&& vstd::utf8::is_ascii_chars(f.en_passant_square@)
    &&& vstd::utf8::is_ascii_chars(f.half_move_counter@)
    &&& vstd::utf8::is_ascii_chars(f.full_move_counter@)
}

/// The views of a sequence of strings.
pub open spec fn strings_view(v: Seq<String>) -> Seq<Seq<char>> {
    v.map(|i: int, st: String| st@)
}

/// Split `s` at `sep` from position `i` on, `start` marking the current
/// piece's beginning; empty pieces are dropped.
pub open spec fn spec_split_from(
    s: Seq<char>,
    sep: char,
    start: int,
    i: int,
    acc: Seq<Seq<char>>,
) -> Seq<Seq<char>>
    decreases s.len() - i,
{
    if i < 0 || i >= s.len() {
        if 0 <= start < s.len() {
            acc.push(s.subrange(start, s.len() as int))
        } else {
            acc
        }
    } else if s[i] == sep {
        spec_split_from(
            s,
            sep,
            i + 1,
            i + 1,
            if start < i {
                acc.push(s.subrange(start, i))
            } else {
                acc
            },
        )
    } else {
        spec_split_from(s, sep, start, i + 1, acc)
    }
}

/// The nonempty pieces of `s` between occurrences of `sep`, in order.
pub open spec fn spec_split(s: Seq<char>, sep: char) -> Seq<Seq<char>> {
    spec_split_from(s, sep, 0, 0, Seq::empty())
}

/// Split an ASCII string at a separator byte, dropping empty pieces.
fn split_ascii(s: &str, sep: u8) -> (r: Vec<String>)
    requires
        s.is_ascii(),
        sep < 128,
    ensures
        strings_view(r@) == spec_split(s@, sep as char),
        forall|i: int| 0 <= i < r@.len() ==> vstd::utf8::is_ascii_chars((#[trigger] r@[i])@),
{
    let n = s.unicode_len();
    let mut out: Vec<String> = Vec::new();
    let mut start: usize = 0;
    let mut i: usize = 0;
    proof {
        assert(strings_view(out@) =~= Seq::<Seq<char>>::empty());
    }
    while i < n
        invariant
            s.is_ascii(),
            sep < 128,
            n == s@.len(),
            start <= i <= n,
            spec_split_from(s@, sep as char, start as int, i as int, strings_view(out@))
                == spec_split(s@, sep as char),
            forall|j: int| 0 <= j < out@.len() ==> vstd::utf8::is_ascii_chars(
                (#[trigger] out@[j])@,
            ),
        decreases n - i,
    {
        let ghost pre = out@;
        let c = s.get_ascii(i);
        proof {
            lemma_ascii_char_byte(s@[i as int], c, sep);
        }
        if c == sep {
            if start < i {
                let piece = s.substring_ascii(start, i);
                out.push(piece.to_owned());
                proof {
                    assert(strings_view(out@) =~= strings_view(pre).push(
                        s@.subrange(start as int, i as int),
                    ));
                }
            }
            start = i + 1;
        }
        i = i + 1;
    }
    if start < n {
        let ghost pre = out@;
        let piece = s.substring_ascii(start, n);
        out.push(piece.to_owned());
        proof {
            assert(strings_view(out@) =~= strings_view(pre).push(
                s@.subrange(start as int, n as int),
            ));
        }
    }
    out
}

/// An ASCII character equals a byte exactly when its code does.
proof fn lemma_ascii_char_byte(ch: char, b: u8, sep: u8)
    requires
        (ch as nat) < 128,
        b == (ch as u8),
        sep < 128,
    ensures
        (b == sep) == (ch == (sep as char)),
{
    assert((ch as u8) == b);
}

/// Whether the string holds the byte's character anywhere.
fn contains_byte(st: &str, b: u8) -> (r: bool)
    requires
        st.is_ascii(),
        b < 128,
    ensures
        r == exists|j: int| 0 <= j < st@.len() && st@[j] == b as char,
{
    let n = st.unicode_len();
    let mut i: usize = 0;
    while i < n
        invariant
            st.is_ascii(),
            b < 128,
            n == st@.len(),
            i <= n,
            forall|j: int| 0 <= j < i ==> st@[j] != b as char,
        decreases n - i,
    {
        let c = st.get_ascii(i);
        proof {
            lemma_ascii_char_byte(st@[i as int], c, b);
        }
        if c == b {
            return true;
        }
        i = i + 1;
    }
    false
}

/// The text is one or more decimal digits.
pub open spec fn spec_is_digits(s: Seq<char>) -> bool {
    s.len() > 0 && forall|j: int| 0 <= j < s.len() ==> 48 <= (#[trigger] s[j]) as u32 <= 57
}

/// The value a digit string denotes.
pub open spec fn spec_dec_val(s: Seq<char>) -> nat
    decreases s.len(),
{
    if s.len() == 0 {
        0
    } else {
        spec_dec_val(s.drop_last()) * 10 + (if s.last() as u32 >= 48 {
            (s.last() as u32 - 48) as nat
        } else {
            0
        })
    }
}

/// Parse an unsigned decimal field: its value when the text is all digits
/// and the value is at most `cap`, else nothing.
fn parse_dec_capped(st: &str, cap: u32) -> (r: Option<u32>)
    requires
        st.is_ascii(),
        cap <= 65535,
    ensures
        (r is Some) == (spec_is_digits(st@) && spec_dec_val(st@) <= cap),
        r is Some ==> r->Some_0 == spec_dec_val(st@),
{
    let n = st.unicode_len();
    if n == 0 {
        return None;
    }
    let mut value: u32 = 0;
    let mut i: usize = 0;
    while i < n
        invariant
            st.is_ascii(),
            cap <= 65535,
            n == st@.len(),
            i <= n,
            value <= 65536,
            forall|j: int| 0 <= j < i ==> 48 <= (#[trigger] st@[j]) as u32 <= 57,
            spec_dec_val(st@.subrange(0, i as int)) <= 65535 ==> value == spec_dec_val(
                st@.subrange(0, i as int),
            ),
            spec_dec_val(st@.subrange(0, i as int)) > 65535 ==> value == 65536,
        decreases n - i,
    {
        let ghost pre = st@.subrange(0, i as int);
        let c = st.get_ascii(i);
        proof {
            assert(((st@[i as int]) as u8) == c && ((st@[i as int]) as nat) < 128);
        }
        if c < 48 || c > 57 {
            return None;
        }
        if value > 65535 / 10 && value <= 65535 {
            value = 65536;
        } else if value <= 65535 {
            value = value * 10 + (c - 48) as u32;
            if value > 65535 {
                value = 65536;
            }
        }
        i = i + 1;
        proof {
            let cur = st@.subrange(0, i as int);
            assert(cur.drop_last() =~= pre);
            assert(cur.last() == st@[i - 1]);
        }
    }
    proof {
        assert(st@.subrange(0, n as int) =~= st@);
    }
    if value <= cap {
        Some(value)
    } else {
        None
    }
}

impl FEN {
    /// Parse a description from its text: the first whitespace field split at
    /// the rank separators (truncated or padded to eight entries), then side
    /// to move, castling, en-passant and the two counters, the last two
    /// defaulting to 0 and 1. Missing fields become a marker no importer
    /// accepts.
    pub fn from_str(fen_string: &str) -> (r: FEN)
        requires
            fen_string.is_ascii(),
        ensures
            fen_wf(r),
            ({
                let parts = spec_split(fen_string@, ' ');
                let ranks = spec_split(
                    if parts.len() > 0 {
                        parts[0]
                    } else {
                        Seq::empty()
                    },
                    '/',
                );
                &&& forall|i: int|
                    0 <= i < 8 ==> (#[trigger] r.board@[i])@ == (if i < ranks.len() {
                        ranks[i]
                    } else {
                        "?"@
                    })
                &&& r.side_to_move@ == (if parts.len() > 1 {
                    parts[1]
                } else {
                    "?"@
                })
                &&& r.castle_rights@ == (if parts.len() > 2 {
                    parts[2]
                } else {
                    "?"@
                })
                &&& r.en_passant_square@ == (if parts.len() > 3 {
                    parts[3]
                } else {
                    "?"@
                })
                &&& r.half_move_counter@ == (if parts.len() > 4 {
                    parts[4]
                } else {
                    "0"@
                })
                &&& r.full_move_counter@ == (if parts.len() > 5 {
                    parts[5]
                } else {
                    "1"@
                })
            }),
    {
        proof {
            reveal_strlit("");
            reveal_strlit("0");
            reveal_strlit("1");
            reveal_strlit("?");
            assert(vstd::utf8::is_ascii_chars("?"@));
            assert(vstd::utf8::is_ascii_chars("0"@));
            assert(vstd::utf8::is_ascii_chars("1"@));
            assert(32u8 as char == ' ' && 47u8 as char == '/');
        }
        let parts = split_ascii(fen_string, 32);
        let empty_first = String::from_str("");
        let board_part: &str = if parts.len() > 0 {
            parts[0].as_str()
        } else {
            empty_first.as_str()
        };
        let mut board = split_ascii(board_part, 47);
        let ghost ranks = strings_view(board@);
        while board.len() > 8
            invariant
                forall|i: int| 0 <= i < board@.len() ==> vstd::utf8::is_ascii_chars(
                    (#[trigger] board@[i])@,
                ),
                board@.len() <= ranks.len(),
                board@.len() >= 8 || board@.len() == ranks.len(),
                forall|i: int| 0 <= i < board@.len() ==> (#[trigger] board@[i])@ == ranks[i],
            decreases board@.len(),
        {
            let _ = board.pop();
        }
        while board.len() < 8
            invariant
                board@.len() <= 8,
                board@.len() >= 8 || board@.len() >= ranks.len(),
                forall|i: int| 0 <= i < board@.len() ==> vstd::utf8::is_ascii_chars(
                    (#[trigger] board@[i])@,
                ),
                forall|i: int|
                    0 <= i < board@.len() ==> (#[trigger] board@[i])@ == (if i < ranks.len() {
                        ranks[i]
                    } else {
                        "?"@
                    }),
            decreases 8 - board@.len(),
        {
            proof {
                reveal_strlit("?");
                assert(vstd::utf8::is_ascii_chars("?"@));
            }
            board.push(String::from_str("?"));
        }
        let side_to_move = if parts.len() > 1 {
            parts[1].clone()
        } else {
            String::from_str("?")
        };
        let castle_rights = if parts.len() > 2 {
            parts[2].clone()
        } else {
            String::from_str("?")
        };
        let en_passant_square = if parts.len() > 3 {
            parts[3].clone()
        } else {
            String::from_str("?")
        };
        let half_move_counter = if parts.len() > 4 {
            parts[4].clone()
        } else {
            String::from_str("0")
        };
        let full_move_counter = if parts.len() > 5 {
            parts[5].clone()
        } else {
            String::from_str("1")
        };
        FEN {
            board,
            side_to_move,
            castle_rights,
            en_passant_square,
            half_move_counter,
            full_move_counter,
        }
    }

    /// Parse a description from an owned string.
    pub fn from_string(fen_string: String) -> (r: FEN)
        requires
            vstd::utf8::is_ascii_chars(fen_string@),
        ensures
            fen_wf(r),
            ({
                let parts = spec_split(fen_string@, ' ');
                let ranks = spec_split(
                    if parts.len() > 0 {
                        parts[0]
                    } else {
                        Seq::empty()
                    },
                    '/',
                );
                &&& forall|i: int|
                    0 <= i < 8 ==> (#[trigger] r.board@[i])@ == (if i < ranks.len() {
                        ranks[i]
                    } else {
                        "?"@
                    })
                &&& r.side_to_move@ == (if parts.len() > 1 {
                    parts[1]
                } else {
                    "?"@
                })
                &&& r.castle_rights@ == (if parts.len() > 2 {
                    parts[2]
                } else {
                    "?"@
                })
                &&& r.en_passant_square@ == (if parts.len() > 3 {
                    parts[3]
                } else {
                    "?"@
                })
                &&& r.half_move_counter@ == (if parts.len() > 4 {
                    parts[4]
                } else {
                    "0"@
                })
                &&& r.full_move_counter@ == (if parts.len() > 5 {
                    parts[5]
                } else {
                    "1"@
                })
            }),
    {
        FEN::from_str(fen_string.as_str())
    }

    /// The standard starting position.
    pub fn start_position() -> (r: FEN)
        ensures
            fen_wf(r),
            r.board@.len() == 8,
            r.board@[0]@ == "rnbqkbnr"@,
            r.board@[1]@ == "pppppppp"@,
            r.board@[2]@ == "8"@ && r.board@[3]@ == "8"@ && r.board@[4]@ == "8"@ && r.board@[5]@
                == "8"@,
            r.board@[6]@ == "PPPPPPPP"@,
            r.board@[7]@ == "RNBQKBNR"@,
            r.side_to_move@ == "w"@,
            r.castle_rights@ == "KQkq"@,
            r.en_passant_square@ == "-"@,
            r.half_move_counter@ == "0"@,
            r.full_move_counter@ == "1"@,
    {
        proof {
            reveal_strlit("rnbqkbnr");
            reveal_strlit("pppppppp");
            reveal_strlit("8");
            reveal_strlit("PPPPPPPP");
            reveal_strlit("RNBQKBNR");
            reveal_strlit("w");
            reveal_strlit("KQkq");
            reveal_strlit("-");
            reveal_strlit("0");
            reveal_strlit("1");
        }
        let mut board: Vec<String> = Vec::new();
        board.push(String::from_str("rnbqkbnr"));
        board.push(String::from_str("pppppppp"));
        board.push(String::from_str("8"));
        board.push(String::from_str("8"));
        board.push(String::from_str("8"));
        board.push(String::from_str("8"));
        board.push(String::from_str("PPPPPPPP"));
        board.push(String::from_str("RNBQKBNR"));
        FEN {
            board,
            side_to_move: String::from_str("w"),
            castle_rights: String::from_str("KQkq"),
            en_passant_square: String::from_str("-"),
            half_move_counter: String::from_str("0"),
            full_move_counter: String::from_str("1"),
        }
    }

    /// A dense middlegame benchmark position.
    pub fn kiwipete_position() -> (r: FEN)
        ensures
            fen_wf(r),
            r.board@.len() == 8,
            r.board@[0]@ == "r3k2r"@,
            r.board@[1]@ == "p1ppqpb1"@,
            r.board@[2]@ == "bn2pnp1"@,
            r.board@[3]@ == "3PN3"@,
            r.board@[4]@ == "1p2P3"@,
            r.board@[5]@ == "2N2Q1p"@,
            r.board@[6]@ == "PPPBBPPP"@,
            r.board@[7]@ == "R3K2R"@,
            r.side_to_move@ == "w"@,
            r.castle_rights@ == "KQkq"@,
            r.en_passant_square@ == "-"@,
            r.half_move_counter@ == "0"@,
            r.full_move_counter@ == "1"@,
    {
        proof {
            reveal_strlit("r3k2r");
            reveal_strlit("p1ppqpb1");
            reveal_strlit("bn2pnp1");
            reveal_strlit("3PN3");
            reveal_strlit("1p2P3");
            reveal_strlit("2N2Q1p");
            reveal_strlit("PPPBBPPP");
            reveal_strlit("R3K2R");
            reveal_strlit("w");
            reveal_strlit("KQkq");
            reveal_strlit("-");
            reveal_strlit("0");
            reveal_strlit("1");
        }
        let mut board: Vec<String> = Vec::new();
        board.push(String::from_str("r3k2r"));
        board.push(String::from_str("p1ppqpb1"));
        board.push(String::from_str("bn2pnp1"));
        board.push(String::from_str("3PN3"));
        board.push(String::from_str("1p2P3"));
        board.push(String::from_str("2N2Q1p"));
        board.push(String::from_str("PPPBBPPP"));
        board.push(String::from_str("R3K2R"));
        FEN {
            board,
            side_to_move: String::from_str("w"),
            castle_rights: String::from_str("KQkq"),
            en_passant_square: String::from_str("-"),
            half_move_counter: String::from_str("0"),
            full_move_counter: String::from_str("1"),
        }
    }

    /// The syntactic sanity check of a description's text: at least four
    /// whitespace fields; exactly eight rank fields; side field `w` or `b`;
    /// a short castling field holding at least one rights letter or `-`; an
    /// en-passant field that is `-` or a square name below the last square;
    /// numeric fifth and sixth fields when present.
    pub fn validate_fen(fen_string: &str) -> (r: bool)
        requires
            fen_string.is_ascii(),
        ensures
            r == spec_validate_fen(fen_string@),
    {
        proof {
            assert(32u8 as char == ' ' && 47u8 as char == '/' && 119u8 as char == 'w' && 98u8
                as char == 'b' && 45u8 as char == '-' && 75u8 as char == 'K' && 81u8 as char == 'Q'
                && 107u8 as char == 'k' && 113u8 as char == 'q');
        }
        let parts = split_ascii(fen_string, 32);
        let ghost sp = spec_split(fen_string@, ' ');
        if parts.len() < 4 {
            return false;
        }
        let board_parts = split_ascii(parts[0].as_str(), 47);
        proof {
            assert(parts@[0]@ == sp[0]);
        }
        if board_parts.len() != 8 {
            return false;
        }
        let stm = parts[1].as_str();
        let stm_ok = stm.unicode_len() == 1 && (stm.get_ascii(0) == 119 || stm.get_ascii(0) == 98);
        proof {
            reveal_strlit("w");
            reveal_strlit("b");
            assert(parts@[1]@ == sp[1]);
            if stm@.len() == 1 {
                lemma_ascii_char_byte(stm@[0], (stm@[0]) as u8, 119);
                lemma_ascii_char_byte(stm@[0], (stm@[0]) as u8, 98);
                if stm@[0] == 'w' {
                    assert(stm@ =~= "w"@);
                }
                if stm@[0] == 'b' {
                    assert(stm@ =~= "b"@);
                }
            }
            assert(stm_ok == (sp[1] == "w"@ || sp[1] == "b"@));
        }
        if !stm_ok {
            return false;
        }
        let castle = parts[2].as_str();
        proof {
            assert(parts@[2]@ == sp[2]);
        }
        if castle.unicode_len() > 4 {
            return false;
        }
        if !(contains_byte(castle, 45) || contains_byte(castle, 75) || contains_byte(castle, 81)
            || contains_byte(castle, 107) || contains_byte(castle, 113)) {
            return false;
        }
        let ep = parts[3].as_str();
        proof {
            assert(parts@[3]@ == sp[3]);
        }
        if ep.unicode_len() > 2 {
            return false;
        }
        let ep_dash = ep.unicode_len() == 1 && ep.get_ascii(0) == 45;
        proof {
            reveal_strlit("-");
            if ep@.len() == 1 {
                lemma_ascii_char_byte(ep@[0], (ep@[0]) as u8, 45);
                if ep@[0] == '-' {
                    assert(ep@ =~= "-"@);
                }
            }
            assert(ep_dash == (sp[3] == "-"@));
        }
        if !ep_dash {
            let sq = Square::from_string(ep);
            if !(sq.get_raw() < 63) {
                return false;
            }
        }
        if parts.len() > 4 {
            proof {
                assert(parts@[4]@ == sp[4]);
            }
            if parse_dec_capped(parts[4].as_str(), 255).is_none() {
                return false;
            }
        }
        if parts.len() > 5 {
            proof {
                assert(parts@[5]@ == sp[5]);
            }
            if parse_dec_capped(parts[5].as_str(), 65535).is_none() {
                return false;
            }
        }
        true
    }
}

/// What `validate_fen` checks of a description's text.
pub open spec fn spec_validate_fen(s: Seq<char>) -> bool {
    let parts = spec_split(s, ' ');
    &&& parts.len() >= 4
    &&& spec_split(parts[0], '/').len() == 8
    &&& (parts[1] == "w"@ || parts[1] == "b"@)
    &&& parts[2].len() <= 4
    &&& (exists|j: int|
        0 <= j < parts[2].len() && ((#[trigger] parts[2][j]) == '-' || parts[2][j] == 'K'
            || parts[2][j] == 'Q' || parts[2][j] == 'k' || parts[2][j] == 'q'))
    &&& parts[3].len() <= 2
    &&& (parts[3] == "-"@ || spec_square_of_text(parts[3]) < 63)
    &&& (parts.len() > 4 ==> spec_is_digits(parts[4]) && spec_dec_val(parts[4]) <= 255)
    &&& (parts.len() > 5 ==> spec_is_digits(parts[5]) && spec_dec_val(parts[5]) <= 65535)
}


/// The piece code a rank letter denotes: the side times six plus the piece
/// kind plus one, or zero for a character that is no piece letter.
pub open spec fn spec_char_code(c: char) -> u8 {
    if c == 'P' {
        1
    } else if c == 'N' {
        2
    } else if c == 'B' {
        3
    } else if c == 'R' {
        4
    } else if c == 'Q' {
        5
    } else if c == 'K' {
        6
    } else if c == 'p' {
        7
    } else if c == 'n' {
        8
    } else if c == 'b' {
        9
    } else if c == 'r' {
        10
    } else if c == 'q' {
        11
    } else if c == 'k' {
        12
    } else {
        0
    }
}

pub open spec fn spec_code_side(c: u8) -> u8 {
    (((c - 1) as u8) / 6) as u8
}

pub open spec fn spec_code_piece(c: u8) -> u8 {
    (((c - 1) as u8) % 6) as u8
}

/// Decode one rank text from `j` on, `acc` holding the file codes read so
/// far: a digit skips that many files, a letter adds its piece; more than
/// eight files or a foreign character fails, missing trailing files are
/// empty.
pub open spec fn spec_rank_codes_from(s: Seq<char>, j: int, acc: Seq<u8>) -> Option<Seq<u8>>
    decreases s.len() - j,
{
    if j < 0 || j >= s.len() {
        Some(acc + Seq::new((8 - acc.len()) as nat, |k: int| 0u8))
    } else if 49 <= (s[j] as u32) && (s[j] as u32) <= 56 {
        let d = ((s[j] as u32) - 48) as int;
        if acc.len() + d > 8 {
            None
        } else {
            spec_rank_codes_from(s, j + 1, acc + Seq::new(d as nat, |k: int| 0u8))
        }
    } else if spec_char_code(s[j]) != 0 {
        if acc.len() >= 8 {
            None
        } else {
            spec_rank_codes_from(s, j + 1, acc.push(spec_char_code(s[j])))
        }
    } else {
        None
    }
}

/// The eight file codes of one rank text.
pub open spec fn spec_rank_codes(s: Seq<char>) -> Option<Seq<u8>> {
    spec_rank_codes_from(s, 0, Seq::empty())
}

/// Every rank field of the description decodes.
pub open spec fn spec_ranks_ok(f: FEN) -> bool {
    f.board@.len() == 8 && forall|k: int|
        0 <= k < 8 ==> (#[trigger] spec_rank_codes(f.board@[k]@)) is Some
}

/// The code of one square under the description: its rank field, read at its
/// file (the first rank field describes the eighth rank).
pub open spec fn spec_fen_code_at(f: FEN, sq: u8) -> u8 {
    let codes = spec_rank_codes(f.board@[7 - (sq / 8) as int]@);
    if codes is Some {
        (codes->Some_0)[(sq % 8) as int]
    } else {
        0
    }
}

/// The piece placement the description denotes, square by square.
pub open spec fn spec_fen_pieces_upto(f: FEN, n: int) -> ChessBoardPieces
    decreases n,
{
    if n <= 0 {
        crate::board::spec_empty_pieces()
    } else {
        let p = spec_fen_pieces_upto(f, n - 1);
        let c = spec_fen_code_at(f, (n - 1) as u8);
        if c == 0 || c > 12 {
            p
        } else {
            crate::board::spec_place(p, spec_code_side(c), spec_code_piece(c), (n - 1) as u8)
        }
    }
}

/// The full piece placement the description denotes.
pub open spec fn spec_fen_pieces(f: FEN) -> ChessBoardPieces {
    spec_fen_pieces_upto(f, 64)
}

/// The side to move a description names: white exactly on `w`.
pub open spec fn spec_fen_stm(f: FEN) -> u8 {
    if f.side_to_move@ == "w"@ {
        WHITE
    } else {
        BLACK
    }
}

/// When the importer accepts a description: every rank decodes, each side
/// has one king, no pawn stands on a back rank, the half-move field is a
/// small number, the material fits the phase counter, and the king of the
/// side that is not to move is not attacked.
pub open spec fn spec_import_ok(f: FEN) -> bool {
    let p = spec_fen_pieces(f);
    let b = ChessBoard { pieces: p, state: crate::board::spec_cleared_state() };
    let opp = (1 - spec_fen_stm(f)) as u8;
    &&& spec_ranks_ok(f)
    &&& crate::board::one_bit64(p.kings.0 & p.white_occ.0)
    &&& crate::board::one_bit64(p.kings.0 & p.black_occ.0)
    &&& p.pawns.0 & 0xFF00_0000_0000_00FFu64 == 0
    &&& spec_is_digits(f.half_move_counter@) && spec_dec_val(f.half_move_counter@) <= 255
    &&& p.spec_phase_sum() <= 255
    &&& crate::masks::spec_attackers_to(
        b,
        opp,
        p.spec_all_occ(),
        (crate::bits::lsb64(p.kings.0 & p.spec_side_occ(opp))) as u8,
    ) == 0
}

/// What an accepted import builds from a description: the denoted placement;
/// the named side to move; each castling right exactly when its letter is
/// given and its king and rook stand at home; the en-passant target exactly
/// when the field names a square consistent with the placement and mover;
/// the parsed half-move clock; the denoted material phase.
pub open spec fn spec_imported_board(f: FEN, b: ChessBoard) -> bool {
    let p = spec_fen_pieces(f);
    let stm = spec_fen_stm(f);
    let cand = spec_square_of_text(f.en_passant_square@);
    &&& b.pieces == p
    &&& b.state.side_to_move.0 == stm
    &&& b.state.castle_rights.spec_has(WHITE_KING_RIGHT) == (f.castle_rights@.contains('K')
        && p.spec_piece_at(4) == KING && p.spec_color_at(4) == WHITE && p.spec_piece_at(7) == ROOK
        && p.spec_color_at(7) == WHITE)
    &&& b.state.castle_rights.spec_has(WHITE_QUEEN_RIGHT) == (f.castle_rights@.contains('Q')
        && p.spec_piece_at(4) == KING && p.spec_color_at(4) == WHITE && p.spec_piece_at(0) == ROOK
        && p.spec_color_at(0) == WHITE)
    &&& b.state.castle_rights.spec_has(BLACK_KING_RIGHT) == (f.castle_rights@.contains('k')
        && p.spec_piece_at(60) == KING && p.spec_color_at(60) == BLACK && p.spec_piece_at(63)
        == ROOK && p.spec_color_at(63) == BLACK)
    &&& b.state.castle_rights.spec_has(BLACK_QUEEN_RIGHT) == (f.castle_rights@.contains('q')
        && p.spec_piece_at(60) == KING && p.spec_color_at(60) == BLACK && p.spec_piece_at(56)
        == ROOK && p.spec_color_at(56) == BLACK)
    &&& b.state.en_passant.0 == (if cand < 64 && cand / 8 == (if stm == WHITE {
        5u8
    } else {
        2u8
    }) && !p.spec_occupied(cand) && p.spec_piece_at((cand ^ 8) as u8) == PAWN && p.spec_color_at(
        (cand ^ 8) as u8,
    ) == 1 - stm {
        cand
    } else {
        64u8
    })
    &&& b.state.half_moves == spec_dec_val(f.half_move_counter@)
    &&& b.state.phase == p.spec_phase_sum()
}

/// A successful rank decode keeps the accumulated files as its prefix and
/// always yields eight in-range codes.
proof fn lemma_rank_codes_prefix(s: Seq<char>, j: int, acc: Seq<u8>)
    requires
        acc.len() <= 8,
        forall|k: int| 0 <= k < acc.len() ==> #[trigger] acc[k] <= 12,
        spec_rank_codes_from(s, j, acc) is Some,
    ensures
        (spec_rank_codes_from(s, j, acc)->Some_0).len() == 8,
        forall|k: int|
            0 <= k < acc.len() ==> #[trigger] (spec_rank_codes_from(s, j, acc)->Some_0)[k]
                == acc[k],
        forall|k: int|
            0 <= k < 8 ==> #[trigger] (spec_rank_codes_from(s, j, acc)->Some_0)[k] <= 12,
    decreases s.len() - j,
{
    if j < 0 || j >= s.len() {
    } else if 49 <= (s[j] as u32) && (s[j] as u32) <= 56 {
        let d = ((s[j] as u32) - 48) as int;
        if acc.len() + d <= 8 {
            lemma_rank_codes_prefix(s, j + 1, acc + Seq::new(d as nat, |k: int| 0u8));
        }
    } else if spec_char_code(s[j]) != 0 {
        if acc.len() < 8 {
            lemma_rank_codes_prefix(s, j + 1, acc.push(spec_char_code(s[j])));
        }
    }
}

/// The placement the description denotes, square by square: each decoded
/// code stands on its square, and squares beyond `n` are still empty.
proof fn lemma_fen_pieces_props(f: FEN, n: int)
    requires
        0 <= n <= 64,
        forall|q: u8| q < 64 ==> #[trigger] spec_fen_code_at(f, q) <= 12,
    ensures
        spec_fen_pieces_upto(f, n).wf(),
        forall|q: u8|
            #![trigger spec_fen_code_at(f, q)]
            q < n ==> ((spec_fen_code_at(f, q) == 0 ==> !spec_fen_pieces_upto(f, n).spec_occupied(
                q,
            )) && (spec_fen_code_at(f, q) != 0 ==> spec_fen_pieces_upto(f, n).spec_occupied(q)
                && spec_fen_pieces_upto(f, n).spec_piece_at(q) == spec_code_piece(
                spec_fen_code_at(f, q),
            ) && spec_fen_pieces_upto(f, n).spec_color_at(q) == spec_code_side(
                spec_fen_code_at(f, q),
            ))),
        forall|q: u8| n <= q < 64 ==> !(#[trigger] spec_fen_pieces_upto(f, n).spec_occupied(q)),
    decreases n,
{
    crate::bits::lemma_bit_ops();
    if n == 0 {
        assert forall|i: u64| i < 64 implies #[trigger] crate::board::spec_empty_pieces().sq_ok(
            i,
        ) by {}
        assert forall|q: u8|
            0 <= q < 64 implies !(#[trigger] spec_fen_pieces_upto(f, 0).spec_occupied(q)) by {
            let j = q as u64;
            assert(!bit64(0u64, j)) by (bit_vector);
        }
    } else {
        lemma_fen_pieces_props(f, n - 1);
        let prev = spec_fen_pieces_upto(f, n - 1);
        let c = spec_fen_code_at(f, (n - 1) as u8);
        if c != 0 {
            assert(1 <= c <= 12);
            crate::board::lemma_spec_place_props(
                prev,
                spec_code_side(c),
                spec_code_piece(c),
                (n - 1) as u8,
            );
        }
        assert forall|q: u8|
            n <= q < 64 implies !(#[trigger] spec_fen_pieces_upto(f, n).spec_occupied(q)) by {
            if c != 0 {
                assert(spec_fen_pieces_upto(f, n).spec_piece_at(q) == prev.spec_piece_at(q));
            }
        }
        assert forall|q: u8|
            #![trigger spec_fen_code_at(f, q)]
            q < n implies ((spec_fen_code_at(f, q) == 0 ==> !spec_fen_pieces_upto(
            f,
            n,
        ).spec_occupied(q)) && (spec_fen_code_at(f, q) != 0 ==> spec_fen_pieces_upto(
            f,
            n,
        ).spec_occupied(q) && spec_fen_pieces_upto(f, n).spec_piece_at(q) == spec_code_piece(
            spec_fen_code_at(f, q),
        ) && spec_fen_pieces_upto(f, n).spec_color_at(q) == spec_code_side(
            spec_fen_code_at(f, q),
        ))) by {
            if q < n - 1 && c != 0 {
                assert(spec_fen_pieces_upto(f, n).spec_piece_at(q) == prev.spec_piece_at(q)
                    && spec_fen_pieces_upto(f, n).spec_color_at(q) == prev.spec_color_at(q)
                    && spec_fen_pieces_upto(f, n).spec_occupied(q) == prev.spec_occupied(q));
            }
        }
    }
}

/// The phase sum of the denoted placement never exceeds four per square.
proof fn lemma_fen_phase_bound(f: FEN)
    ensures
        spec_fen_pieces(f).spec_phase_sum() <= 256,
{
    crate::board::lemma_phase_bound(spec_fen_pieces(f), 64);
}

/// The empty board hashes and weighs to zero.
proof fn lemma_empty_board(n: int)
    ensures
        crate::board::spec_empty_pieces().spec_hash_upto(n) == 0,
        crate::board::spec_empty_pieces().spec_phase_upto(n) == 0,
    decreases n,
{
    lemma_bit_ops();
    crate::zobrist::lemma_xor_algebra();
    if n > 0 {
        lemma_empty_board(n - 1);
        let j = (n - 1) as u64;
        assert(!bit64(0u64, j)) by (bit_vector);
        assert(crate::board::spec_empty_pieces().pawns.0 == 0u64);
        assert(crate::board::spec_empty_pieces().spec_piece_at((n - 1) as u8) == NO_PIECE);
        assert(crate::board::spec_empty_pieces().spec_contrib((n - 1) as u8) == 0);
        assert(crate::board::spec_empty_pieces().spec_weight((n - 1) as u8) == 0);
    }
}

/// The piece and side encoded by one ASCII letter of a rank field.
fn piece_of_byte(c: u8) -> (r: Option<(Piece, Side)>)
    ensures
        (r is Some) == (spec_char_code(c as char) != 0),
        r is Some ==> (r->Some_0).0.valid() && (r->Some_0).1.valid() && spec_char_code(c as char)
            == (r->Some_0).1.0 * 6 + (r->Some_0).0.0 + 1,
{
    proof {
        assert(80u8 as char == 'P' && 78u8 as char == 'N' && 66u8 as char == 'B' && 82u8 as char
            == 'R' && 81u8 as char == 'Q' && 75u8 as char == 'K' && 112u8 as char == 'p' && 110u8
            as char == 'n' && 98u8 as char == 'b' && 114u8 as char == 'r' && 113u8 as char == 'q'
            && 107u8 as char == 'k');
    }
    match c {
        80 => Some((Piece(PAWN), Side(WHITE))),
        78 => Some((Piece(KNIGHT), Side(WHITE))),
        66 => Some((Piece(BISHOP), Side(WHITE))),
        82 => Some((Piece(ROOK), Side(WHITE))),
        81 => Some((Piece(QUEEN), Side(WHITE))),
        75 => Some((Piece(KING), Side(WHITE))),
        112 => Some((Piece(PAWN), Side(BLACK))),
        110 => Some((Piece(KNIGHT), Side(BLACK))),
        98 => Some((Piece(BISHOP), Side(BLACK))),
        114 => Some((Piece(ROOK), Side(BLACK))),
        113 => Some((Piece(QUEEN), Side(BLACK))),
        107 => Some((Piece(KING), Side(BLACK))),
        _ => None,
    }
}

impl ChessBoard {
    /// Build a position from a parsed textual description. The result is
    /// `Some` exactly when the importer accepts the description, and then it
    /// carries precisely the position the description denotes; it is `None`
    /// when a rank fails to decode, a side lacks exactly one king, a pawn
    /// stands on a back rank, the half-move field is no small number, the
    /// material overflows the phase counter, or the king of the side that
    /// just moved is still attacked.
    #[verifier::rlimit(100)]
    #[verifier::spinoff_prover]
    pub fn from_fen(atk: &Attacks, fen: &FEN) -> (r: Option<ChessBoard>)
        requires
            atk.wf(),
            fen_wf(*fen),
        ensures
            (r is Some) == spec_import_ok(*fen),
            r is Some ==> (r->Some_0).wf() && spec_imported_board(*fen, r->Some_0),
    {
        let ghost f = *fen;
        let mut board = ChessBoard::default();
        let mut phase: u32 = 0;
        proof {
            lemma_bit_ops();
            lemma_empty_board(64);
            assert forall|i: u64| i < 64 implies #[trigger] board.pieces.sq_ok(i) by {}
            assert forall|q: u8|
                0 <= q < 64 implies !(#[trigger] board.pieces.spec_occupied(q)) by {
                let j = q as u64;
                assert(!bit64(0u64, j)) by (bit_vector);
            }
        }
        let mut rank_pos: usize = 8;
        while rank_pos > 0
            invariant
                atk.wf(),
                fen_wf(f),
                f == *fen,
                rank_pos <= 8,
                board.pieces.wf(),
                board.state.zobrist.0 == board.pieces.spec_piece_hash(),
                phase == board.pieces.spec_phase_sum(),
                phase <= 64 * 4,
                board.state.half_moves == 0,
                board.state.en_passant.0 == 64,
                board.state.side_to_move.0 == WHITE,
                board.state.castle_rights.0 == 0,
                board.state.phase == 0,
                forall|k: int|
                    rank_pos <= k < 8 ==> (#[trigger] spec_rank_codes(f.board@[k]@)) is Some,
                forall|q: u8|
                    #![trigger spec_fen_code_at(f, q)]
                    q < (8 - rank_pos) * 8 ==> spec_fen_code_at(f, q) <= 12 && ((spec_fen_code_at(
                        f,
                        q,
                    ) == 0 ==> !board.pieces.spec_occupied(q)) && (spec_fen_code_at(f, q) != 0
                        ==> board.pieces.spec_occupied(q) && board.pieces.spec_piece_at(q)
                        == spec_code_piece(spec_fen_code_at(f, q)) && board.pieces.spec_color_at(q)
                        == spec_code_side(spec_fen_code_at(f, q)))),
                forall|q: u8|
                    (8 - rank_pos) * 8 <= q < 64 ==> !(#[trigger] board.pieces.spec_occupied(q)),
            decreases rank_pos,
        {
            rank_pos = rank_pos - 1;
            let rank_num: u8 = (7 - rank_pos) as u8;
            let rank_str: &str = fen.board[rank_pos].as_str();
            let len = rank_str.unicode_len();
            let mut file: u8 = 0;
            let mut idx: usize = 0;
            let ghost mut codes: Seq<u8> = Seq::empty();
            while idx < len
                invariant
                    atk.wf(),
                    rank_str.is_ascii(),
                    rank_str@ == f.board@[rank_pos as int]@,
                    f == *fen,
                    f.board@.len() == 8,
                    rank_pos < 8,
                    rank_num == 7 - rank_pos,
                    len == rank_str@.len(),
                    idx <= len,
                    file <= 8,
                    codes.len() == file,
                    forall|k: int| 0 <= k < codes.len() ==> #[trigger] codes[k] <= 12,
                    spec_rank_codes_from(rank_str@, idx as int, codes) == spec_rank_codes(
                        rank_str@,
                    ),
                    board.pieces.wf(),
                    board.state.zobrist.0 == board.pieces.spec_piece_hash(),
                    phase == board.pieces.spec_phase_sum(),
                    phase <= 64 * 4,
                    board.state.half_moves == 0,
                    board.state.en_passant.0 == 64,
                    board.state.side_to_move.0 == WHITE,
                    board.state.castle_rights.0 == 0,
                    board.state.phase == 0,
                    forall|k: int|
                        rank_pos + 1 <= k < 8 ==> (#[trigger] spec_rank_codes(
                            f.board@[k]@,
                        )) is Some,
                    forall|q: u8|
                        #![trigger spec_fen_code_at(f, q)]
                        q < rank_num * 8 ==> spec_fen_code_at(f, q) <= 12 && ((spec_fen_code_at(
                            f,
                            q,
                        ) == 0 ==> !board.pieces.spec_occupied(q)) && (spec_fen_code_at(f, q) != 0
                            ==> board.pieces.spec_occupied(q) && board.pieces.spec_piece_at(q)
                            == spec_code_piece(spec_fen_code_at(f, q))
                            && board.pieces.spec_color_at(q) == spec_code_side(
                            spec_fen_code_at(f, q),
                        ))),
                    forall|fl: u8|
                        #![trigger codes[fl as int]]
                        fl < file ==> ((codes[fl as int] == 0 ==> !board.pieces.spec_occupied(
                            (rank_num * 8 + fl) as u8,
                        )) && (codes[fl as int] != 0 ==> board.pieces.spec_occupied(
                            (rank_num * 8 + fl) as u8,
                        ) && board.pieces.spec_piece_at((rank_num * 8 + fl) as u8)
                            == spec_code_piece(codes[fl as int]) && board.pieces.spec_color_at(
                            (rank_num * 8 + fl) as u8,
                        ) == spec_code_side(codes[fl as int]))),
                    forall|q: u8|
                        rank_num * 8 + file <= q < 64 ==> !(
                        #[trigger] board.pieces.spec_occupied(q)),
                decreases len - idx,
            {
                let c = rank_str.get_ascii(idx);
                proof {
                    assert(((rank_str@[idx as int]) as u8) == c && ((rank_str@[idx as int]) as nat)
                        < 128);
                    assert(rank_str@[idx as int] == (c as char));
                }
                if 49 <= c && c <= 56 {
                    let step = c - 48;
                    if file + step > 8 {
                        proof {
                            assert(spec_rank_codes(rank_str@) is None);
                            lemma_none_when_rank_fails(f, rank_pos as int);
                        }
                        return None;
                    }
                    let ghost codes0 = codes;
                    proof {
                        codes = codes + Seq::new(step as nat, |k: int| 0u8);
                        assert forall|k: int| 0 <= k < codes.len() implies #[trigger] codes[k]
                            <= 12 by {
                            if k < codes0.len() {
                                assert(codes[k] == codes0[k]);
                            } else {
                                assert(codes[k] == 0);
                            }
                        }
                        assert forall|fl: u8|
                            fl < file + step implies ((#[trigger] codes[fl as int] == 0
                            ==> !board.pieces.spec_occupied((rank_num * 8 + fl) as u8)) && (codes[
                            fl as int
                        ] != 0 ==> board.pieces.spec_occupied((rank_num * 8 + fl) as u8)
                            && board.pieces.spec_piece_at((rank_num * 8 + fl) as u8)
                            == spec_code_piece(codes[fl as int]) && board.pieces.spec_color_at(
                            (rank_num * 8 + fl) as u8,
                        ) == spec_code_side(codes[fl as int]))) by {
                            if fl < file {
                                assert(codes[fl as int] == codes0[fl as int]);
                            } else {
                                assert(codes[fl as int] == 0);
                                assert(!board.pieces.spec_occupied((rank_num * 8 + fl) as u8));
                            }
                        }
                    }
                    file = file + step;
                } else {
                    match piece_of_byte(c) {
                        Some((piece, side)) => {
                            if file >= 8 {
                                proof {
                                    assert(spec_rank_codes(rank_str@) is None);
                                    lemma_none_when_rank_fails(f, rank_pos as int);
                                }
                                return None;
                            }
                            let square = Square(rank_num * 8 + file);
                            let ghost pb = board.pieces;
                            let ghost codes0 = codes;
                            proof {
                                crate::board::lemma_phase_bound(board.pieces, 64);
                                assert(!board.pieces.spec_occupied(square.0));
                            }
                            board.set_piece_on_square(side, square, piece);
                            phase = phase + phase_value(piece) as u32;
                            proof {
                                codes = codes.push((side.0 * 6 + piece.0 + 1) as u8);
                                crate::board::lemma_phase_bound(board.pieces, 64);
                                assert(spec_char_code(rank_str@[idx as int]) == codes[
                                    file as int
                                ]);
                                assert forall|q: u8|
                                    #![trigger board.pieces.spec_piece_at(q)]
                                    #![trigger board.pieces.spec_occupied(q)]
                                    q < 64 && q != square.0 implies board.pieces.spec_piece_at(q)
                                    == pb.spec_piece_at(q) && board.pieces.spec_color_at(q)
                                    == pb.spec_color_at(q) && board.pieces.spec_occupied(q)
                                    == pb.spec_occupied(q) by {}
                                assert forall|k: int|
                                    0 <= k < codes.len() implies #[trigger] codes[k] <= 12 by {
                                    if k < codes0.len() {
                                        assert(codes[k] == codes0[k]);
                                    }
                                }
                                assert forall|fl: u8|
                                    fl < file + 1 implies ((#[trigger] codes[fl as int] == 0
                                    ==> !board.pieces.spec_occupied((rank_num * 8 + fl) as u8)) && (
                                codes[fl as int] != 0 ==> board.pieces.spec_occupied(
                                    (rank_num * 8 + fl) as u8,
                                ) && board.pieces.spec_piece_at((rank_num * 8 + fl) as u8)
                                    == spec_code_piece(codes[fl as int])
                                    && board.pieces.spec_color_at((rank_num * 8 + fl) as u8)
                                    == spec_code_side(codes[fl as int]))) by {
                                    if fl < file {
                                        assert(codes[fl as int] == codes0[fl as int]);
                                        assert((rank_num * 8 + fl) as u8 != square.0);
                                    }
                                }
                            }
                            file = file + 1;
                        },
                        None => {
                            proof {
                                assert(spec_char_code(rank_str@[idx as int]) == 0);
                                assert(spec_rank_codes(rank_str@) is None);
                                lemma_none_when_rank_fails(f, rank_pos as int);
                            }
                            return None;
                        },
                    }
                }
                idx = idx + 1;
            }
            proof {
                assert(spec_rank_codes_from(rank_str@, len as int, codes) == spec_rank_codes(
                    rank_str@,
                ));
                assert(spec_rank_codes(rank_str@) is Some);
                lemma_rank_codes_prefix(rank_str@, len as int, codes);
                let full = spec_rank_codes(f.board@[rank_pos as int]@)->Some_0;
                assert forall|q: u8|
                    #![trigger spec_fen_code_at(f, q)]
                    q < (8 - rank_pos) * 8 implies spec_fen_code_at(f, q) <= 12 && ((
                spec_fen_code_at(f, q) == 0 ==> !board.pieces.spec_occupied(q)) && (
                spec_fen_code_at(f, q) != 0 ==> board.pieces.spec_occupied(q)
                    && board.pieces.spec_piece_at(q) == spec_code_piece(spec_fen_code_at(f, q))
                    && board.pieces.spec_color_at(q) == spec_code_side(
                    spec_fen_code_at(f, q),
                ))) by {
                    if q >= rank_num * 8 {
                        let fl = (q % 8) as u8;
                        assert(7 - (q / 8) as int == rank_pos as int);
                        assert(spec_fen_code_at(f, q) == full[fl as int]);
                        if fl < file {
                            assert(full[fl as int] == codes[fl as int]);
                            assert(codes[fl as int] <= 12);
                        } else {
                            assert(full[fl as int] == (codes + Seq::new(
                                (8 - codes.len()) as nat,
                                |k: int| 0u8,
                            ))[fl as int]);
                            assert(full[fl as int] == 0);
                            assert(!board.pieces.spec_occupied(q));
                        }
                    }
                }
            }
        }
        proof {
            assert(spec_ranks_ok(f));
            lemma_board_matches_fen(f, board.pieces);
            assert(board.pieces == spec_fen_pieces(f));
        }
        let ghost p = spec_fen_pieces(f);
        // one king per side, and no pawns on the back ranks
        if !Bitboard(board.pieces.kings.0 & board.pieces.white_occ.0).only_one_bit() {
            return None;
        }
        if !Bitboard(board.pieces.kings.0 & board.pieces.black_occ.0).only_one_bit() {
            return None;
        }
        if board.pieces.pawns.0 & 0xFF00_0000_0000_00FFu64 != 0 {
            return None;
        }
        proof {
            lemma_bit_ops();
            let pw = board.pieces.pawns.0;
            assert forall|i: u64| i < 64 implies (#[trigger] bit64(pw, i) ==> 1 <= i / 8 <= 6) by {
                assert(bit64(pw, i) && (i / 8 == 0 || i / 8 == 7) ==> bit64(
                    pw & 0xFF00_0000_0000_00FFu64,
                    i,
                )) by (bit_vector);
            }
        }
        // the half-move clock must be a small number
        let half = match parse_dec_capped(fen.half_move_counter.as_str(), 255) {
            Some(h) => h as u8,
            None => {
                return None;
            },
        };
        // the material must fit the phase counter
        if phase > 255 {
            return None;
        }
        // side to move
        let stm_str: &str = fen.side_to_move.as_str();
        let stm_white = stm_str.unicode_len() == 1 && stm_str.get_ascii(0) == 119;
        proof {
            reveal_strlit("w");
            if stm_str@.len() == 1 {
                lemma_ascii_char_byte(stm_str@[0], (stm_str@[0]) as u8, 119);
                if stm_str@[0] == 'w' {
                    assert(stm_str@ =~= "w"@);
                }
            }
            assert(stm_white == (f.side_to_move@ == "w"@));
        }
        let stm = if stm_white {
            Side(WHITE)
        } else {
            Side(BLACK)
        };
        board.state.side_to_move = stm;
        // the king of the side not owning the move must not stand attacked
        let opp = stm.flipped();
        let opp_king = board.get_king_square(opp);
        if board.is_square_attacked(atk, opp, opp_king) {
            return None;
        }
        // castling rights, granted only with king and rook at home
        let rights_str: &str = fen.castle_rights.as_str();
        proof {
            assert(75u8 as char == 'K' && 81u8 as char == 'Q' && 107u8 as char == 'k' && 113u8
                as char == 'q');
        }
        let wk = contains_byte(rights_str, 75) && board.get_piece_on_square(Square(4)).0 == KING
            && board.get_piece_color_on_square(Square(4)).0 == WHITE && board.get_piece_on_square(
            Square(7),
        ).0 == ROOK && board.get_piece_color_on_square(Square(7)).0 == WHITE;
        let wq = contains_byte(rights_str, 81) && board.get_piece_on_square(Square(4)).0 == KING
            && board.get_piece_color_on_square(Square(4)).0 == WHITE && board.get_piece_on_square(
            Square(0),
        ).0 == ROOK && board.get_piece_color_on_square(Square(0)).0 == WHITE;
        let bk = contains_byte(rights_str, 107) && board.get_piece_on_square(Square(60)).0 == KING
            && board.get_piece_color_on_square(Square(60)).0 == BLACK && board.get_piece_on_square(
            Square(63),
        ).0 == ROOK && board.get_piece_color_on_square(Square(63)).0 == BLACK;
        let bq = contains_byte(rights_str, 113) && board.get_piece_on_square(Square(60)).0 == KING
            && board.get_piece_color_on_square(Square(60)).0 == BLACK && board.get_piece_on_square(
            Square(56),
        ).0 == ROOK && board.get_piece_color_on_square(Square(56)).0 == BLACK;
        let a: u8 = if wk {
            WHITE_KING_RIGHT
        } else {
            0
        };
        let b: u8 = if wq {
            WHITE_QUEEN_RIGHT
        } else {
            0
        };
        let c: u8 = if bk {
            BLACK_KING_RIGHT
        } else {
            0
        };
        let d: u8 = if bq {
            BLACK_QUEEN_RIGHT
        } else {
            0
        };
        let rights: u8 = a | b | c | d;
        proof {
            lemma_rights_pack(a, b, c, d);
        }
        board.state.castle_rights = CastleRights(rights);
        // en-passant target, kept only when consistent with the position
        let ep_str: &str = fen.en_passant_square.as_str();
        let mut ep: u8 = 64;
        if ep_str.unicode_len() == 2 {
            let fc = ep_str.get_ascii(0);
            let rc = ep_str.get_ascii(1);
            proof {
                assert(((ep_str@[0]) as u8) == fc && ((ep_str@[1]) as u8) == rc);
            }
            if 97 <= fc && fc <= 104 && 49 <= rc && rc <= 56 {
                let cand = (rc - 49) * 8 + (fc - 97);
                proof {
                    assert(cand == spec_square_of_text(f.en_passant_square@));
                }
                let want_rank: u8 = if stm.0 == WHITE {
                    5
                } else {
                    2
                };
                let behind = Square(cand ^ 8);
                proof {
                    crate::make_move::lemma_sq_xor8_pub(cand);
                }
                if cand / 8 == want_rank && !board.get_occupancy().get_bit(Square(cand))
                    && board.get_piece_on_square(behind).0 == PAWN
                    && board.get_piece_color_on_square(behind).0 == 1 - stm.0 {
                    ep = cand;
                }
            }
        }
        proof {
            if ep_str@.len() != 2 {
                assert(spec_square_of_text(f.en_passant_square@) == 64);
            }
        }
        board.state.en_passant = Square(ep);
        // clocks and phase
        board.state.half_moves = half;
        board.state.phase = phase as u8;
        proof {
            assert(board.wf());
            assert(spec_import_ok(f));
            assert(spec_imported_board(f, board));
        }
        Some(board)
    }
}

/// A placement carrying exactly the decoded file codes of every square is
/// the placement the description denotes.
proof fn lemma_board_matches_fen(f: FEN, bp: ChessBoardPieces)
    requires
        spec_ranks_ok(f),
        bp.wf(),
        forall|q: u8|
            #![trigger spec_fen_code_at(f, q)]
            q < 64 ==> spec_fen_code_at(f, q) <= 12 && ((spec_fen_code_at(f, q) == 0
                ==> !bp.spec_occupied(q)) && (spec_fen_code_at(f, q) != 0 ==> bp.spec_occupied(q)
                && bp.spec_piece_at(q) == spec_code_piece(spec_fen_code_at(f, q))
                && bp.spec_color_at(q) == spec_code_side(spec_fen_code_at(f, q)))),
    ensures
        bp == spec_fen_pieces(f),
{
    crate::bits::lemma_bit_ops();
    assert forall|q: u8| q < 64 implies #[trigger] spec_fen_code_at(f, q) <= 12 by {}
    lemma_fen_pieces_props(f, 64);
    let sp = spec_fen_pieces(f);
    assert forall|q: u8|
        q < 64 implies #[trigger] bp.spec_piece_at(q) == sp.spec_piece_at(q) && bp.spec_color_at(
        q,
    ) == sp.spec_color_at(q) && bp.spec_occupied(q) == sp.spec_occupied(q) by {
        assert(spec_fen_code_at(f, q) <= 12);
        if spec_fen_code_at(f, q) == 0 {
            assert(!bp.spec_occupied(q));
            assert(!sp.spec_occupied(q));
            assert(bp.sq_ok(q as u64));
            assert(sp.sq_ok(q as u64));
            crate::board::lemma_bits_as_preds(bp, q as u64);
            crate::board::lemma_bits_as_preds(sp, q as u64);
        }
    }
    crate::board::lemma_pieces_ext(bp, sp);
}


/// The code of one square as the exporter sees it.
pub open spec fn spec_board_code_at(p: ChessBoardPieces, sq: u8) -> u8 {
    if p.spec_piece_at(sq) == NO_PIECE {
        0
    } else {
        ((p.spec_color_at(sq) * 6 + p.spec_piece_at(sq) + 1) as u8)
    }
}

/// A piece letter decodes back to the piece and colour it was written for,
/// and is no digit.
proof fn lemma_letter_round_trip(piece: u8, color: u8)
    requires
        piece < 6,
        color < 2,
    ensures
        spec_char_code((spec_piece_letter_byte(piece, color)) as char) == color * 6 + piece + 1,
        !(49 <= (spec_piece_letter_byte(piece, color)) as u32 && (spec_piece_letter_byte(
            piece,
            color,
        )) as u32 <= 56),
        spec_piece_letter_byte(piece, color) < 128,
{
    assert(80u8 as char == 'P' && 78u8 as char == 'N' && 66u8 as char == 'B' && 82u8 as char == 'R'
        && 81u8 as char == 'Q' && 75u8 as char == 'K' && 112u8 as char == 'p' && 110u8 as char
        == 'n' && 98u8 as char == 'b' && 114u8 as char == 'r' && 113u8 as char == 'q' && 107u8
        as char == 'k');
}

/// Rendering appends to its accumulator.
proof fn lemma_render_extends(p: ChessBoardPieces, rank: u8, file: int, cnt: u8, acc: Seq<u8>)
    ensures
        spec_rank_bytes_from(p, rank, file, cnt, acc) == acc + spec_rank_bytes_from(
            p,
            rank,
            file,
            cnt,
            Seq::empty(),
        ),
    decreases 8 - file,
{
    if file < 0 || file >= 8 {
        if cnt > 0 {
            assert(acc.push((48 + cnt) as u8) =~= acc + Seq::empty().push((48 + cnt) as u8));
        } else {
            assert(acc =~= acc + Seq::<u8>::empty());
        }
    } else {
        let sq = ((rank * 8) as int + file) as u8;
        if p.spec_piece_at(sq) != NO_PIECE {
            let letter = spec_piece_letter_byte(p.spec_piece_at(sq), p.spec_color_at(sq));
            let acc2 = if cnt > 0 {
                acc.push((48 + cnt) as u8)
            } else {
                acc
            };
            let head2 = if cnt > 0 {
                Seq::<u8>::empty().push((48 + cnt) as u8)
            } else {
                Seq::<u8>::empty()
            };
            lemma_render_extends(p, rank, file + 1, 0, acc2.push(letter));
            lemma_render_extends(p, rank, file + 1, 0, head2.push(letter));
            let tail = spec_rank_bytes_from(p, rank, file + 1, 0, Seq::empty());
            assert(acc2.push(letter) =~= acc + head2.push(letter));
            assert(acc2.push(letter) + tail =~= acc + (head2.push(letter) + tail));
        } else {
            lemma_render_extends(p, rank, file + 1, (cnt + 1) as u8, acc);
        }
    }
}

/// Decoding ignores everything before its position.
proof fn lemma_decode_shift(s1: Seq<char>, s2: Seq<char>, j: int, acc: Seq<u8>)
    requires
        0 <= j,
    ensures
        spec_rank_codes_from(s1 + s2, s1.len() as int + j, acc) == spec_rank_codes_from(
            s2,
            j,
            acc,
        ),
    decreases s2.len() - j,
{
    if j >= s2.len() {
    } else {
        assert((s1 + s2)[s1.len() as int + j] == s2[j]);
        let c = s2[j];
        if 49 <= (c as u32) && (c as u32) <= 56 {
            let d = ((c as u32) - 48) as int;
            if acc.len() + d <= 8 {
                lemma_decode_shift(s1, s2, j + 1, acc + Seq::new(d as nat, |k: int| 0u8));
            }
        } else if spec_char_code(c) != 0 {
            if acc.len() < 8 {
                lemma_decode_shift(s1, s2, j + 1, acc.push(spec_char_code(c)));
            }
        }
    }
}

/// Decoding what the exporter renders of a rank suffix reproduces its codes:
/// `cnt` empty files are pending and `accc` holds the codes already decoded.
proof fn lemma_rank_round_trip(p: ChessBoardPieces, rank: u8, file: int, cnt: u8, accc: Seq<u8>)
    requires
        rank < 8,
        0 <= file <= 8,
        cnt <= file,
        accc.len() + cnt == file,
        forall|k: int|
            0 <= k < accc.len() ==> #[trigger] accc[k] == spec_board_code_at(
                p,
                ((rank * 8) as int + k) as u8,
            ),
        forall|k: int|
            accc.len() <= k < file ==> #[trigger] spec_board_code_at(
                p,
                ((rank * 8) as int + k) as u8,
            ) == 0,
    ensures
        ({
            let res = spec_rank_codes_from(
                spec_chars_of(spec_rank_bytes_from(p, rank, file, cnt, Seq::empty())),
                0,
                accc,
            );
            &&& res is Some
            &&& forall|k: int|
                0 <= k < 8 ==> #[trigger] (res->Some_0)[k] == spec_board_code_at(
                    p,
                    ((rank * 8) as int + k) as u8,
                )
        }),
    decreases 8 - file,
{
    let render = spec_rank_bytes_from(p, rank, file, cnt, Seq::empty());
    let chars = spec_chars_of(render);
    if file >= 8 {
        if cnt > 0 {
            assert(chars =~= seq![((48 + cnt) as u8) as char]);
            assert((((48 + cnt) as u8) as char) as u32 == 48 + cnt);
            let acc2 = accc + Seq::new(cnt as nat, |k: int| 0u8);
            let res = spec_rank_codes_from(chars, 0, accc);
            assert(res == spec_rank_codes_from(chars, 1, acc2));
            assert(res == Some(acc2 + Seq::new((8 - acc2.len()) as nat, |k: int| 0u8)));
            assert forall|k: int|
                0 <= k < 8 implies #[trigger] (res->Some_0)[k] == spec_board_code_at(
                p,
                ((rank * 8) as int + k) as u8,
            ) by {
                if k < accc.len() {
                    assert((res->Some_0)[k] == accc[k]);
                } else {
                    assert((res->Some_0)[k] == 0);
                }
            }
        } else {
            assert(chars =~= Seq::<char>::empty());
            let res = spec_rank_codes_from(chars, 0, accc);
            assert(res == Some(accc + Seq::new((8 - accc.len()) as nat, |k: int| 0u8)));
            assert forall|k: int|
                0 <= k < 8 implies #[trigger] (res->Some_0)[k] == spec_board_code_at(
                p,
                ((rank * 8) as int + k) as u8,
            ) by {
                if k < accc.len() {
                    assert((res->Some_0)[k] == accc[k]);
                } else {
                    assert((res->Some_0)[k] == 0);
                }
            }
        }
    } else {
        let sq = ((rank * 8) as int + file) as u8;
        if p.spec_piece_at(sq) != NO_PIECE {
            let piece = p.spec_piece_at(sq);
            let color = p.spec_color_at(sq);
            lemma_letter_round_trip(piece, color);
            let letter = spec_piece_letter_byte(piece, color);
            let code = spec_board_code_at(p, sq);
            let tail = spec_rank_bytes_from(p, rank, file + 1, 0, Seq::empty());
            let head: Seq<u8> = if cnt > 0 {
                seq![(48 + cnt) as u8, letter]
            } else {
                seq![letter]
            };
            let mid = accc + Seq::new(cnt as nat, |k: int| 0u8);
            assert(render =~= head + tail) by {
                if cnt > 0 {
                    lemma_render_extends(
                        p,
                        rank,
                        file + 1,
                        0,
                        Seq::<u8>::empty().push((48 + cnt) as u8).push(letter),
                    );
                    assert(Seq::<u8>::empty().push((48 + cnt) as u8).push(letter) =~= head);
                } else {
                    lemma_render_extends(p, rank, file + 1, 0, Seq::<u8>::empty().push(letter));
                    assert(Seq::<u8>::empty().push(letter) =~= head);
                }
            }
            assert(chars =~= spec_chars_of(head) + spec_chars_of(tail));
            lemma_rank_round_trip(p, rank, file + 1, 0, mid.push(code));
            lemma_decode_shift(spec_chars_of(head), spec_chars_of(tail), 0, mid.push(code));
            if cnt > 0 {
                assert(chars[0] == ((48 + cnt) as u8) as char);
                assert((chars[0] as u32) == 48 + cnt);
                assert(spec_rank_codes_from(chars, 0, accc) == spec_rank_codes_from(
                    chars,
                    1,
                    mid,
                ));
                assert(chars[1] == letter as char);
                assert(spec_char_code(chars[1]) == code);
                assert(mid.len() == file < 8);
                assert(spec_rank_codes_from(chars, 1, mid) == spec_rank_codes_from(
                    chars,
                    2,
                    mid.push(code),
                ));
                assert(spec_rank_codes_from(chars, 2, mid.push(code)) == spec_rank_codes_from(
                    spec_chars_of(tail),
                    0,
                    mid.push(code),
                ));
            } else {
                assert(chars[0] == letter as char);
                assert(spec_char_code(chars[0]) == code);
                assert(mid =~= accc);
                assert(mid.len() == file < 8);
                assert(spec_rank_codes_from(chars, 0, mid) == spec_rank_codes_from(
                    chars,
                    1,
                    mid.push(code),
                ));
                assert(spec_rank_codes_from(chars, 1, mid.push(code)) == spec_rank_codes_from(
                    spec_chars_of(tail),
                    0,
                    mid.push(code),
                ));
            }
        } else {
            lemma_rank_round_trip(p, rank, file + 1, (cnt + 1) as u8, accc);
        }
    }
}

/// The placement a position exports decodes back to the same placement: the
/// rank texts of its description denote exactly its piece placement.
pub proof fn lemma_export_denotes_placement(b: ChessBoardPieces, f: FEN)
    requires
        b.wf(),
        f.board@.len() == 8,
        forall|k: int|
            0 <= k < 8 ==> (#[trigger] f.board@[k]@) == spec_chars_of(
                spec_rank_bytes(b, (7 - k) as u8),
            ),
    ensures
        spec_ranks_ok(f),
        spec_fen_pieces(f) == b,
{
    crate::bits::lemma_bit_ops();
    assert forall|k: int| 0 <= k < 8 implies (#[trigger] spec_rank_codes(
        f.board@[k]@,
    )) is Some by {
        lemma_rank_round_trip(b, (7 - k) as u8, 0, 0, Seq::empty());
    }
    assert forall|q: u8|
        #![trigger spec_fen_code_at(f, q)]
        q < 64 implies spec_fen_code_at(f, q) <= 12 && ((spec_fen_code_at(f, q) == 0
        ==> !b.spec_occupied(q)) && (spec_fen_code_at(f, q) != 0 ==> b.spec_occupied(q)
        && b.spec_piece_at(q) == spec_code_piece(spec_fen_code_at(f, q)) && b.spec_color_at(q)
        == spec_code_side(spec_fen_code_at(f, q)))) by {
        let rank = (q / 8) as u8;
        let k = 7 - (q / 8) as int;
        lemma_rank_round_trip(b, rank, 0, 0, Seq::empty());
        let res = spec_rank_codes(f.board@[k]@);
        assert((res->Some_0)[(q % 8) as int] == spec_board_code_at(
            b,
            ((rank * 8) as int + (q % 8) as int) as u8,
        ));
        assert(((rank * 8) as int + (q % 8) as int) as u8 == q);
        assert(spec_fen_code_at(f, q) == spec_board_code_at(b, q));
        assert(b.sq_ok(q as u64));
        if b.spec_piece_at(q) != NO_PIECE {
            crate::board::lemma_bits_as_preds(b, q as u64);
        }
    }
    lemma_board_matches_fen(f, b);
}


/// Decimal rendering and parsing are inverse.
proof fn lemma_dec_round_trip(n: nat)
    ensures
        spec_is_digits(spec_chars_of(spec_dec_bytes(n))),
        spec_dec_val(spec_chars_of(spec_dec_bytes(n))) == n,
    decreases n,
{
    crate::strutil::lemma_dec_ascii_pub(n);
    let chars = spec_chars_of(spec_dec_bytes(n));
    assert forall|j: int| 0 <= j < chars.len() implies 48 <= (#[trigger] chars[j]) as u32
        <= 57 by {
        assert(48 <= spec_dec_bytes(n)[j] <= 57);
    }
    if n < 10 {
        assert(chars =~= seq![((48 + n) as u8) as char]);
        assert(chars.drop_last() =~= Seq::<char>::empty());
        assert((((48 + n) as u8) as char) as u32 == 48 + n);
        assert(spec_dec_val(chars) == spec_dec_val(chars.drop_last()) * 10 + n);
    } else {
        lemma_dec_round_trip(n / 10);
        assert(chars.drop_last() =~= spec_chars_of(spec_dec_bytes(n / 10)));
        assert(chars.last() == ((48 + n % 10) as u8) as char);
        assert((((48 + n % 10) as u8) as char) as u32 == 48 + n % 10);
        assert(spec_dec_val(chars) == spec_dec_val(chars.drop_last()) * 10 + n % 10);
        assert(spec_dec_val(chars.drop_last()) == n / 10);
        assert((n / 10) * 10 + n % 10 == n) by (nonlinear_arith);
    }
}

/// A square name renders and parses back to itself.
proof fn lemma_square_text_round_trip(e: u8)
    requires
        e < 64,
    ensures
        spec_square_of_text(spec_chars_of(spec_square_bytes(e))) == e,
{
    let chars = spec_chars_of(spec_square_bytes(e));
    assert(chars =~= seq![((97 + e % 8) as u8) as char, ((49 + e / 8) as u8) as char]);
}

/// The rights letters render and read back to the same rights bits.
proof fn lemma_rights_round_trip(r: u8)
    ensures
        spec_chars_of(spec_rights_bytes(r)).contains('K') == (r & WHITE_KING_RIGHT != 0),
        spec_chars_of(spec_rights_bytes(r)).contains('Q') == (r & WHITE_QUEEN_RIGHT != 0),
        spec_chars_of(spec_rights_bytes(r)).contains('k') == (r & BLACK_KING_RIGHT != 0),
        spec_chars_of(spec_rights_bytes(r)).contains('q') == (r & BLACK_QUEEN_RIGHT != 0),
{
    assert(75u8 as char == 'K' && 81u8 as char == 'Q' && 107u8 as char == 'k' && 113u8 as char
        == 'q' && 45u8 as char == '-');
    let bs = spec_rights_bytes(r);
    let chars = spec_chars_of(bs);
    assert forall|j: int| 0 <= j < chars.len() implies #[trigger] chars[j] == (bs[j] as char) by {}
    if r & WHITE_KING_RIGHT != 0 {
        assert(bs[0] == 75);
        assert(chars[0] == 'K');
        assert(chars.contains('K'));
    } else {
        assert forall|j: int| 0 <= j < bs.len() implies #[trigger] bs[j] != 75 by {}
        assert(!chars.contains('K'));
    }
    if r & WHITE_QUEEN_RIGHT != 0 {
        let i: int = if r & WHITE_KING_RIGHT != 0 {
            1
        } else {
            0
        };
        assert(bs[i] == 81);
        assert(chars[i] == 'Q');
        assert(chars.contains('Q'));
    } else {
        assert forall|j: int| 0 <= j < bs.len() implies #[trigger] bs[j] != 81 by {}
        assert(!chars.contains('Q'));
    }
    if r & BLACK_KING_RIGHT != 0 {
        let i: int = (if r & WHITE_KING_RIGHT != 0 {
            1int
        } else {
            0int
        }) + (if r & WHITE_QUEEN_RIGHT != 0 {
            1int
        } else {
            0int
        });
        assert(bs[i] == 107);
        assert(chars[i] == 'k');
        assert(chars.contains('k'));
    } else {
        assert forall|j: int| 0 <= j < bs.len() implies #[trigger] bs[j] != 107 by {}
        assert(!chars.contains('k'));
    }
    if r & BLACK_QUEEN_RIGHT != 0 {
        let i: int = (if r & WHITE_KING_RIGHT != 0 {
            1int
        } else {
            0int
        }) + (if r & WHITE_QUEEN_RIGHT != 0 {
            1int
        } else {
            0int
        }) + (if r & BLACK_KING_RIGHT != 0 {
            1int
        } else {
            0int
        });
        assert(bs[i] == 113);
        assert(chars[i] == 'q');
        assert(chars.contains('q'));
    } else {
        assert forall|j: int| 0 <= j < bs.len() implies #[trigger] bs[j] != 113 by {}
        assert(!chars.contains('q'));
    }
}

/// Exporting a well-formed position and importing the description again
/// yields the very same logical position, provided the king of the side not
/// owning the move is not attacked (the import rule): the description is
/// accepted and denotes exactly the source position.
pub proof fn lemma_export_reimports(b: ChessBoard, f: FEN)
    requires
        b.wf(),
        f.board@.len() == 8,
        forall|k: int|
            0 <= k < 8 ==> (#[trigger] f.board@[k]@) == spec_chars_of(
                spec_rank_bytes(b.pieces, (7 - k) as u8),
            ),
        f.side_to_move@ == spec_chars_of(
            if b.stm() == WHITE {
                seq![119u8]
            } else {
                seq![98u8]
            },
        ),
        f.castle_rights@ == spec_chars_of(spec_rights_bytes(b.state.castle_rights.0)),
        f.en_passant_square@ == spec_chars_of(spec_ep_bytes(b.state.en_passant.0)),
        f.half_move_counter@ == spec_chars_of(spec_dec_bytes(b.state.half_moves as nat)),
        crate::masks::spec_attackers_to(
            ChessBoard { pieces: b.pieces, state: crate::board::spec_cleared_state() },
            (1 - b.stm()) as u8,
            b.pieces.spec_all_occ(),
            (crate::bits::lsb64(
                b.pieces.kings.0 & b.pieces.spec_side_occ((1 - b.stm()) as u8),
            )) as u8,
        ) == 0,
    ensures
        spec_import_ok(f),
        spec_imported_board(f, b),
{
    crate::bits::lemma_bit_ops();
    lemma_export_denotes_placement(b.pieces, f);
    assert(spec_fen_pieces(f) == b.pieces);
    // the side field reads back
    proof_fen_stm(b, f);
    // the clock reads back
    lemma_dec_round_trip(b.state.half_moves as nat);
    // no pawn stands on a back rank, as a mask
    let pw = b.pieces.pawns.0;
    assert forall|i: u64| i < 64 implies !(#[trigger] bit64(
        pw & 0xFF00_0000_0000_00FFu64,
        i,
    )) by {
        assert(bit64(0xFF00_0000_0000_00FFu64, i) == (i < 64 && (i / 8 == 0 || i / 8 == 7)))
            by (bit_vector);
    }
    crate::bits::lemma_bit_ext(pw & 0xFF00_0000_0000_00FFu64, 0);
    assert(spec_import_ok(f));
    // the castling letters read back, and the home placements hold
    lemma_rights_round_trip(b.state.castle_rights.0);
    // the en-passant field reads back
    if b.state.en_passant.0 != 64 {
        lemma_square_text_round_trip(b.state.en_passant.0);
        crate::make_move::lemma_sq_xor8_pub(b.state.en_passant.0);
    } else {
        assert(spec_chars_of(spec_ep_bytes(64)) =~= seq![(45u8) as char]);
        assert(spec_square_of_text(f.en_passant_square@) == 64);
    }
    assert(spec_imported_board(f, b));
}

/// The side field of an exported description reads back to the same side.
proof fn proof_fen_stm(b: ChessBoard, f: FEN)
    requires
        b.state.side_to_move.valid(),
        f.side_to_move@ == spec_chars_of(
            if b.stm() == WHITE {
                seq![119u8]
            } else {
                seq![98u8]
            },
        ),
    ensures
        spec_fen_stm(f) == b.stm(),
{
    reveal_strlit("w");
    assert(119u8 as char == 'w' && 98u8 as char == 'b');
    if b.stm() == WHITE {
        assert(f.side_to_move@ =~= "w"@);
    } else {
        assert(f.side_to_move@ =~= seq!['b']);
        if f.side_to_move@ == "w"@ {
            assert("w"@[0] == 'w');
            assert(false);
        }
    }
}

/// A rank text that cannot decode sinks the whole description./// A rank text that cannot decode sinks the whole description.
proof fn lemma_none_when_rank_fails(f: FEN, k: int)
    requires
        0 <= k < 8,
        f.board@.len() == 8,
        spec_rank_codes(f.board@[k]@) is None,
    ensures
        !spec_import_ok(f),
{
}

/// Combining distinct castling-right bits keeps each recoverable and the
/// mask in range.
proof fn lemma_rights_pack(a: u8, b: u8, c: u8, d: u8)
    by (bit_vector)
    requires
        a == 0 || a == 0b0100,
        b == 0 || b == 0b1000,
        c == 0 || c == 0b0001,
        d == 0 || d == 0b0010,
    ensures
        (a | b | c | d) < 16,
        ((a | b | c | d) & 0b0100u8 != 0) == (a == 0b0100),
        ((a | b | c | d) & 0b1000u8 != 0) == (b == 0b1000),
        ((a | b | c | d) & 0b0001u8 != 0) == (c == 0b0001),
        ((a | b | c | d) & 0b0010u8 != 0) == (d == 0b0010),
{
}

/// The letter of a piece on the board: lower case for black, upper case for
/// white.
pub open spec fn spec_piece_letter_byte(piece: u8, color: u8) -> u8 {
    let lower: u8 = if piece == PAWN {
        112
    } else if piece == KNIGHT {
        110
    } else if piece == BISHOP {
        98
    } else if piece == ROOK {
        114
    } else if piece == QUEEN {
        113
    } else {
        107
    };
    if color == WHITE {
        (lower - 32) as u8
    } else {
        lower
    }
}

/// The run-length-coded text of one rank, read from `file` on with `cnt`
/// empty files pending.
pub open spec fn spec_rank_bytes_from(
    p: ChessBoardPieces,
    rank: u8,
    file: int,
    cnt: u8,
    acc: Seq<u8>,
) -> Seq<u8>
    decreases 8 - file,
{
    if file < 0 || file >= 8 {
        if cnt > 0 {
            acc.push((48 + cnt) as u8)
        } else {
            acc
        }
    } else {
        let sq = ((rank * 8) as int + file) as u8;
        if p.spec_piece_at(sq) != NO_PIECE {
            let acc2 = if cnt > 0 {
                acc.push((48 + cnt) as u8)
            } else {
                acc
            };
            spec_rank_bytes_from(
                p,
                rank,
                file + 1,
                0,
                acc2.push(spec_piece_letter_byte(p.spec_piece_at(sq), p.spec_color_at(sq))),
            )
        } else {
            spec_rank_bytes_from(p, rank, file + 1, (cnt + 1) as u8, acc)
        }
    }
}

/// The full run-length-coded text of one rank.
pub open spec fn spec_rank_bytes(p: ChessBoardPieces, rank: u8) -> Seq<u8> {
    spec_rank_bytes_from(p, rank, 0, 0, Seq::empty())
}

/// The bytes of the castling-rights field.
pub open spec fn spec_rights_bytes(r: u8) -> Seq<u8> {
    let a = if r & WHITE_KING_RIGHT != 0 {
        seq![75u8]
    } else {
        Seq::<u8>::empty()
    };
    let b = if r & WHITE_QUEEN_RIGHT != 0 {
        seq![81u8]
    } else {
        Seq::<u8>::empty()
    };
    let c = if r & BLACK_KING_RIGHT != 0 {
        seq![107u8]
    } else {
        Seq::<u8>::empty()
    };
    let d = if r & BLACK_QUEEN_RIGHT != 0 {
        seq![113u8]
    } else {
        Seq::<u8>::empty()
    };
    let all = a + b + c + d;
    if all.len() == 0 {
        seq![45u8]
    } else {
        all
    }
}

/// The bytes of the en-passant field.
pub open spec fn spec_ep_bytes(e: u8) -> Seq<u8> {
    if e == 64 {
        seq![45u8]
    } else {
        seq![(97 + e % 8) as u8, (49 + e / 8) as u8]
    }
}

impl ChessBoard {
    /// Export the position as a textual description: piece placement with
    /// run-length-coded gaps, side to move, castling rights, en-passant
    /// target and the half-move clock.
    #[verifier::rlimit(60)]
    pub fn get_fen(&self) -> (r: FEN)
        requires
            self.state.en_passant.0 == 64 || self.state.en_passant.0 < 64,
        ensures
            fen_wf(r),
            r.board@.len() == 8,
            forall|k: int|
                0 <= k < 8 ==> (#[trigger] r.board@[k]@) == spec_chars_of(
                    spec_rank_bytes(self.pieces, (7 - k) as u8),
                ),
            r.side_to_move@ == spec_chars_of(
                if self.stm() == WHITE {
                    seq![119u8]
                } else {
                    seq![98u8]
                },
            ),
            r.castle_rights@ == spec_chars_of(spec_rights_bytes(self.state.castle_rights.0)),
            r.en_passant_square@ == spec_chars_of(spec_ep_bytes(self.state.en_passant.0)),
            r.half_move_counter@ == spec_chars_of(spec_dec_bytes(self.state.half_moves as nat)),
    {
        let mut board: Vec<String> = Vec::new();
        let mut rank: u8 = 8;
        while rank > 0
            invariant
                forall|i: int| 0 <= i < board@.len() ==> vstd::utf8::is_ascii_chars(
                    (#[trigger] board@[i])@,
                ),
                board@.len() == 8 - rank,
                forall|k: int|
                    0 <= k < board@.len() ==> (#[trigger] board@[k]@) == spec_chars_of(
                        spec_rank_bytes(self.pieces, (7 - k) as u8),
                    ),
            decreases rank,
        {
            rank = rank - 1;
            let mut bytes: Vec<u8> = Vec::new();
            let mut empty_count: u8 = 0;
            let mut file: u8 = 0;
            while file < 8
                invariant
                    rank < 8,
                    file <= 8,
                    empty_count <= file,
                    spec_rank_bytes_from(self.pieces, rank, file as int, empty_count, bytes@)
                        == spec_rank_bytes(self.pieces, rank),
                    forall|i: int| 0 <= i < bytes@.len() ==> #[trigger] bytes@[i] < 128,
                decreases 8 - file,
            {
                let square = Square(rank * 8 + file);
                let piece = self.get_piece_on_square(square);
                if piece.0 != NO_PIECE {
                    if empty_count > 0 {
                        bytes.push(48 + empty_count);
                        empty_count = 0;
                    }
                    let side = self.get_piece_color_on_square(square);
                    bytes.push(piece_letter(piece, side));
                } else {
                    empty_count = empty_count + 1;
                }
                file = file + 1;
            }
            if empty_count > 0 {
                bytes.push(48 + empty_count);
            }
            proof {
                assert(bytes@ =~= spec_rank_bytes(self.pieces, rank));
            }
            let row = ascii_to_string(bytes);
            proof {
                ascii_chars_of_bytes(bytes@);
            }
            board.push(row);
        }
        let side_to_move = ascii_to_string(
            if self.state.side_to_move.0 == WHITE {
                let mut v: Vec<u8> = Vec::new();
                v.push(119);
                v
            } else {
                let mut v: Vec<u8> = Vec::new();
                v.push(98);
                v
            },
        );
        let mut rb: Vec<u8> = Vec::new();
        let rights = self.state.castle_rights;
        if rights.0 & WHITE_KING_RIGHT != 0 {
            rb.push(75);
        }
        if rights.0 & WHITE_QUEEN_RIGHT != 0 {
            rb.push(81);
        }
        if rights.0 & BLACK_KING_RIGHT != 0 {
            rb.push(107);
        }
        if rights.0 & BLACK_QUEEN_RIGHT != 0 {
            rb.push(113);
        }
        if rb.len() == 0 {
            rb.push(45);
        }
        proof {
            assert(rb@ =~= spec_rights_bytes(self.state.castle_rights.0));
        }
        let castle_rights = ascii_to_string(rb);
        let mut eb: Vec<u8> = Vec::new();
        let e = self.state.en_passant.0;
        if e == 64 {
            eb.push(45);
        } else {
            eb.push(97 + e % 8);
            eb.push(49 + e / 8);
        }
        proof {
            assert(eb@ =~= spec_ep_bytes(self.state.en_passant.0));
        }
        let en_passant_square = ascii_to_string(eb);
        let mut hb: Vec<u8> = Vec::new();
        push_dec_u8(self.state.half_moves, &mut hb);
        proof {
            crate::strutil::lemma_dec_ascii_pub(self.state.half_moves as nat);
        }
        let half_move_counter = ascii_to_string(hb);
        let mut fb: Vec<u8> = Vec::new();
        fb.push(49);
        let full_move_counter = ascii_to_string(fb);
        proof {
            ascii_chars_of_bytes(seq![119u8]);
            ascii_chars_of_bytes(seq![98u8]);
            ascii_chars_of_bytes(spec_rights_bytes(self.state.castle_rights.0));
            ascii_chars_of_bytes(spec_ep_bytes(self.state.en_passant.0));
            crate::strutil::lemma_dec_ascii_pub(self.state.half_moves as nat);
            ascii_chars_of_bytes(spec_dec_bytes(self.state.half_moves as nat));
            ascii_chars_of_bytes(seq![49u8]);
        }
        FEN {
            board,
            side_to_move,
            castle_rights,
            en_passant_square,
            half_move_counter,
            full_move_counter,
        }
    }
}

/// The letter of a piece: lower case for black, upper case for white.
fn piece_letter(piece: Piece, side: Side) -> (r: u8)
    ensures
        r == spec_piece_letter_byte(piece.0, side.0),
        r < 128,
{
    let lower: u8 = match piece.0 {
        PAWN => 112,
        KNIGHT => 110,
        BISHOP => 98,
        ROOK => 114,
        QUEEN => 113,
        _ => 107,
    };
    if side.0 == WHITE {
        lower - 32
    } else {
        lower
    }
}

/// Append the decimal digits of a byte value.
fn push_dec_u8(n: u8, out: &mut Vec<u8>)
    ensures
        final(out)@ == old(out)@ + spec_dec_bytes(n as nat),
    decreases n,
{
    if n >= 10 {
        push_dec_u8(n / 10, out);
    }
    out.push(48 + n % 10);
    proof {
        assert(out@ =~= old(out)@ + spec_dec_bytes(n as nat));
    }
}

/// A sequence of ASCII bytes maps to characters below 128.
proof fn ascii_chars_of_bytes(bytes: Seq<u8>)
    requires
        forall|i: int| 0 <= i < bytes.len() ==> bytes[i] < 128,
    ensures
        vstd::utf8::is_ascii_chars(spec_chars_of(bytes)),
{
    assert forall|i: int| 0 <= i < spec_chars_of(bytes).len() implies (
    #[trigger] spec_chars_of(bytes)[i]) as nat <= 127 by {
        assert(bytes[i] < 128);
    }
}

/// The two characters naming a square, file letter then rank digit.
pub open spec fn spec_square_bytes(sq: u8) -> Seq<u8> {
    seq![(97 + sq % 8) as u8, (49 + sq / 8) as u8]
}

/// The square a two-character name denotes, or the NULL sentinel when the
/// text is not a square name.
pub open spec fn spec_square_of_text(s: Seq<char>) -> u8 {
    if s.len() == 2 && 97 <= s[0] as u32 <= 104 && 49 <= s[1] as u32 <= 56 {
        (((s[1] as u32 - 49) * 8 + (s[0] as u32 - 97)) as u8)
    } else {
        64
    }
}

impl Square {
    /// Parse a square name, as in the en-passant field; a text that is not a
    /// square name yields the NULL sentinel.
    pub fn from_string(square: &str) -> (r: Square)
        requires
            square.is_ascii(),
        ensures
            r.0 == spec_square_of_text(square@),
    {
        if square.unicode_len() != 2 {
            return Square(NULL_SQUARE);
        }
        let fc = square.get_ascii(0);
        let rc = square.get_ascii(1);
        if 97 <= fc && fc <= 104 && 49 <= rc && rc <= 56 {
            Square((rc - 49) * 8 + (fc - 97))
        } else {
            Square(NULL_SQUARE)
        }
    }
}

/// The letter of a promotion piece kind.
pub open spec fn spec_promo_letter(p: u8) -> u8 {
    if p == KNIGHT {
        110
    } else if p == BISHOP {
        98
    } else if p == ROOK {
        114
    } else {
        113
    }
}

/// The bytes of a move's text: origin, destination, and, for a promotion,
/// the promoted piece's letter.
pub open spec fn spec_move_bytes(m: Move) -> Seq<u8> {
    let base = spec_square_bytes(m.spec_from()) + spec_square_bytes(m.spec_to());
    if m.spec_is_promotion() {
        base.push(spec_promo_letter(m.spec_promotion_piece()))
    } else {
        base
    }
}

impl Move {
    /// The algebraic two/three-part text of a move.
    pub fn to_string(&self) -> (r: String)
        ensures
            r@ == spec_chars_of(spec_move_bytes(*self)),
    {
        let mut bytes: Vec<u8> = Vec::new();
        let from = self.get_from_square();
        let to = self.get_to_square();
        bytes.push(97 + from.0 % 8);
        bytes.push(49 + from.0 / 8);
        bytes.push(97 + to.0 % 8);
        bytes.push(49 + to.0 / 8);
        if self.is_promotion() {
            let p = self.get_promotion_piece();
            bytes.push(
                if p.0 == KNIGHT {
                    110
                } else if p.0 == BISHOP {
                    98
                } else if p.0 == ROOK {
                    114
                } else {
                    113
                },
            );
        }
        proof {
            assert(bytes@ =~= spec_move_bytes(*self));
        }
        ascii_to_string(bytes)
    }
}

} // verus!
