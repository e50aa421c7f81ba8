//! Board representation and legal-move-generation kernel of a chess engine:
//! bit-packed position state, derived attack tables (including magic-number
//! perfect-hash tables for sliding pieces), a check/pin-aware legal move
//! generator, move application with an incrementally maintained Zobrist key,
//! and the textual import/export of positions.
mod bitboard;
mod bits;
mod board;
mod castle_rights;
mod fen;
mod attacks;
mod magics;
mod make_move;
mod masks;
mod movegen;
mod perft;
mod position;
mod history;
mod moves;
mod piece;
mod rays;
mod side;
mod strutil;
mod square;
mod zobrist;

pub use bitboard::Bitboard;
pub use board::{ChessBoard, ChessBoardPieces, ChessBoardState};
pub use bits::{bit64, lsb64, popcnt64};
pub use attacks::{Attacks, KingAttacks, KnightAttacks, PawnsAttacks};
pub use castle_rights::CastleRights;
pub use fen::{fen_wf, lemma_export_denotes_placement, lemma_export_reimports, spec_fen_pieces, spec_import_ok, spec_imported_board, spec_rank_bytes, spec_validate_fen, FEN};
pub use magics::{slider_attacks_raw, slider_mask, spec_bishop_attacks, spec_rook_attacks, BishopAttacks, RookAttacks};
pub use masks::{spec_attack_map, spec_attackers_to, spec_checkers, spec_pin_masks};
pub use movegen::{moves_ok, moves_pin_safe, pin_safe, spec_gen_moves, MoveGen};
pub use perft::{spec_perft, Perft};
pub use position::ChessPosition;
pub use make_move::{apply_move_spec, lemma_hash_consistency, lemma_source_key_stable, move_ok};
pub use history::{MoveHistory, HISTORY_CAPACITY};
pub use moves::{Move, MoveFlag};
pub use strutil::StringUtils;
pub use piece::{phase_value, Piece};
pub use rays::{spec_ray, Rays};
pub use side::Side;
pub use square::{Square, NULL_SQUARE};
pub use zobrist::ZobristKey;
