use spear::{Attacks, ChessBoard, ChessPosition, Move, MoveFlag, Piece, Side, Square, StringUtils, FEN};

fn setup() -> Attacks {
    Attacks::new()
}

fn board_from(fen: &str, atk: &Attacks) -> ChessBoard {
    let parsed = FEN::from_str(fen);
    ChessBoard::from_fen(atk, &parsed).expect("position should import")
}

fn perft(fen: &str, depth: u8, atk: &Attacks) -> u64 {
    let board = board_from(fen, atk);
    spear::Perft::perft_board(&board, atk, depth)
}

const START: &str = "rnbqkbnr/pppppppp/8/8/8/8/PPPPPPPP/RNBQKBNR w KQkq - 0 1";
const KIWIPETE: &str = "r3k2r/p1ppqpb1/bn2pnp1/3PN3/1p2P3/2N2Q1p/PPPBBPPP/R3K2R w KQkq - 0 1";

#[test]
fn perft_start_position_shallow() {
    let atk = setup();
    assert_eq!(perft(START, 1, &atk), 20);
    assert_eq!(perft(START, 2, &atk), 400);
    assert_eq!(perft(START, 3, &atk), 8902);
    assert_eq!(perft(START, 4, &atk), 197281);
}

#[test]
fn perft_kiwipete() {
    let atk = setup();
    assert_eq!(perft(KIWIPETE, 1, &atk), 48);
    assert_eq!(perft(KIWIPETE, 2, &atk), 2039);
    assert_eq!(perft(KIWIPETE, 3, &atk), 97862);
}

#[test]
fn perft_endgame_position() {
    let atk = setup();
    let fen = "8/2p5/3p4/KP5r/1R3p1k/8/4P1P1/8 w - - 0 1";
    assert_eq!(perft(fen, 1, &atk), 14);
    assert_eq!(perft(fen, 2, &atk), 191);
    assert_eq!(perft(fen, 3, &atk), 2812);
    assert_eq!(perft(fen, 4, &atk), 43238);
}

#[test]
fn perft_promotion_position() {
    let atk = setup();
    let fen = "r3k2r/Pppp1ppp/1b3nbN/nP6/BBP1P3/q4N2/Pp1P2PP/R2Q1RK1 w kq - 0 1";
    assert_eq!(perft(fen, 1, &atk), 6);
    assert_eq!(perft(fen, 2, &atk), 264);
    assert_eq!(perft(fen, 3, &atk), 9467);
}

#[test]
fn perft_bugcatcher_position() {
    let atk = setup();
    let fen = "rnbq1k1r/pp1Pbppp/2p5/8/2B5/8/PPP1NnPP/RNBQK2R w KQ - 1 8";
    assert_eq!(perft(fen, 1, &atk), 44);
    assert_eq!(perft(fen, 2, &atk), 1486);
    assert_eq!(perft(fen, 3, &atk), 62379);
}

#[test]
fn perft_symmetric_position() {
    let atk = setup();
    let fen = "r4rk1/1pp1qppp/p1np1n2/2b1p1B1/2B1P1b1/P1NP1N2/1PP1QPPP/R4RK1 w - - 0 10";
    assert_eq!(perft(fen, 1, &atk), 46);
    assert_eq!(perft(fen, 2, &atk), 2079);
    assert_eq!(perft(fen, 3, &atk), 89890);
}

#[test]
fn move_packing_round_trip() {
    let mv = Move::from_squares(Square(12), Square(28), 1);
    assert_eq!(mv.get_from_square().0, 12);
    assert_eq!(mv.get_to_square().0, 28);
    assert_eq!(mv.get_flag(), 1);
    assert!(!mv.is_capture());
    assert!(!mv.is_promotion());
    let promo = Move::from_squares(Square(52), Square(60), 15);
    assert!(promo.is_capture());
    assert!(promo.is_promotion());
    assert_eq!(promo.get_promotion_piece().0, 4);
}

#[test]
fn no_generated_move_leaves_own_king_attacked() {
    let atk = setup();
    let fens = [
        START,
        KIWIPETE,
        "8/2p5/3p4/KP5r/1R3p1k/8/4P1P1/8 w - - 0 1",
        "rnbq1k1r/pp1Pbppp/2p5/8/2B5/8/PPP1NnPP/RNBQK2R w KQ - 1 8",
    ];
    for fen in fens {
        let board = board_from(fen, &atk);
        let mover = board.side_to_move();
        for mv in board.map_moves(&atk) {
            let mut copy = board;
            copy.make_move(mv);
            assert!(!copy.is_in_check(&atk, mover), "king left attacked");
        }
    }
}

#[test]
fn double_check_allows_only_king_moves() {
    let atk = setup();
    // white king on e1 checked by a rook on e8 and a knight on f3
    let board = board_from("4r2k/8/8/8/8/5n2/8/4K3 w - - 0 1", &atk);
    let king = board.get_king_square(Side(0));
    let moves = board.map_moves(&atk);
    assert!(moves.len() > 0);
    for mv in moves {
        assert_eq!(mv.get_from_square().0, king.0);
    }
}

#[test]
fn pinned_piece_moves_stay_on_the_ray() {
    let atk = setup();
    // white bishop on d2 pinned by a rook on e8 against the king on e1
    let board = board_from("4r2k/8/8/8/8/8/3BP3/4K3 w - - 0 1", &atk);
    let (diag, orto) = board.generate_pin_masks(&atk, Side(0));
    assert_eq!(diag.0, 0);
    assert!(orto.0 != 0);
    for mv in board.map_moves(&atk) {
        let from = mv.get_from_square();
        if orto.get_bit(from) && from.0 != board.get_king_square(Side(0)).0 {
            assert!(orto.get_bit(mv.get_to_square()));
        }
    }
}

#[test]
fn capture_generation_is_a_subset_of_all_moves() {
    let atk = setup();
    let board = board_from(KIWIPETE, &atk);
    let all = board.map_moves(&atk);
    let captures = board.map_captures(&atk);
    for c in &captures {
        assert!(all.iter().any(|m| m.get_value() == c.get_value()));
        assert!(c.is_capture());
    }
    assert!(captures.len() <= all.len());
}

#[test]
fn incremental_key_matches_reimported_position() {
    let atk = setup();
    let mut board = board_from(START, &atk);
    // play a short line: double push, reply, knight out
    let line = [
        Move::from_squares(Square(12), Square(28), 1),
        Move::from_squares(Square(52), Square(36), 1),
        Move::from_squares(Square(6), Square(21), 0),
    ];
    for mv in line {
        let legal = board.map_moves(&atk);
        assert!(legal.iter().any(|m| m.get_value() == mv.get_value()));
        board.make_move(mv);
        let exported = board.get_fen();
        let reimported = ChessBoard::from_fen(&atk, &exported).expect("round trip");
        assert_eq!(board.get_key().get_raw(), reimported.get_key().get_raw());
    }
}

#[test]
fn make_move_on_copy_leaves_source_untouched() {
    let atk = setup();
    let board = board_from(KIWIPETE, &atk);
    let key_before = board.get_key().get_raw();
    let moves = board.map_moves(&atk);
    for mv in moves {
        let mut copy = board;
        copy.make_move(mv);
        assert_ne!(copy.side_to_move().get_raw(), board.side_to_move().get_raw());
    }
    assert_eq!(board.get_key().get_raw(), key_before);
    let reimported = ChessBoard::from_fen(&atk, &board.get_fen()).expect("round trip");
    assert_eq!(reimported.get_key().get_raw(), key_before);
}

#[test]
fn fen_round_trip_preserves_the_position() {
    let atk = setup();
    let fens = [
        START,
        KIWIPETE,
        "8/2p5/3p4/KP5r/1R3p1k/8/4P1P1/8 w - - 0 1",
        "rnbq1k1r/pp1Pbppp/2p5/8/2B5/8/PPP1NnPP/RNBQK2R b KQ - 3 9",
        "rnbqkbnr/ppp1pppp/8/8/3pP3/5N2/PPPP1PPP/RNBQKB1R b KQkq e3 0 3",
    ];
    for fen in fens {
        let board = board_from(fen, &atk);
        let exported = board.get_fen();
        let reimported = ChessBoard::from_fen(&atk, &exported).expect("round trip");
        assert_eq!(board.get_key().get_raw(), reimported.get_key().get_raw());
        assert_eq!(board.side_to_move().get_raw(), reimported.side_to_move().get_raw());
        assert_eq!(board.castle_rights().get_raw(), reimported.castle_rights().get_raw());
        assert_eq!(board.en_passant_square().get_raw(), reimported.en_passant_square().get_raw());
        assert_eq!(board.half_move_counter(), reimported.half_move_counter());
        for sq in 0..64u8 {
            let s = Square(sq);
            assert_eq!(board.get_piece_on_square(s).get_raw(), reimported.get_piece_on_square(s).get_raw());
        }
    }
}

#[test]
fn import_rejects_broken_descriptions() {
    let atk = setup();
    // no kings at all
    assert!(ChessBoard::from_fen(&atk, &FEN::from_str("8/8/8/8/8/8/8/8 w - - 0 1")).is_none());
    // two white kings
    assert!(ChessBoard::from_fen(&atk, &FEN::from_str("4k3/8/8/8/8/8/8/3KK3 w - - 0 1")).is_none());
    // pawn on the back rank
    assert!(ChessBoard::from_fen(&atk, &FEN::from_str("P3k3/8/8/8/8/8/8/4K3 w - - 0 1")).is_none());
    // the king of the side that already moved is still attacked
    assert!(ChessBoard::from_fen(&atk, &FEN::from_str("4k3/8/8/8/8/8/4R3/4K3 w - - 0 1")).is_none());
    // a sound position imports
    assert!(ChessBoard::from_fen(&atk, &FEN::from_str(START)).is_some());
}

#[test]
fn magic_lookup_matches_the_ray_walk_reference() {
    let atk = setup();
    let occupancies = [
        0u64,
        0x0000_0010_0800_4000,
        0xFFFF_FFFF_FFFF_FFFF,
        0x8100_0000_0000_0081,
        0x0055_AA00_55AA_0055,
        0x1234_5678_9ABC_DEF0,
    ];
    for sq in 0..64u8 {
        for occ in occupancies {
            let square = Square(sq);
            let rook = atk.get_rook_attacks_for_square(square, spear::Bitboard(occ));
            let rook_ref = spear::slider_attacks_raw(true, square, occ & spear::slider_mask(true, square));
            assert_eq!(rook.get_raw(), rook_ref);
            let bishop = atk.get_bishop_attacks_for_square(square, spear::Bitboard(occ));
            let bishop_ref = spear::slider_attacks_raw(false, square, occ & spear::slider_mask(false, square));
            assert_eq!(bishop.get_raw(), bishop_ref);
        }
    }
}

#[test]
fn repetition_detection_sees_a_returning_position() {
    let atk = setup();
    let parsed = FEN::from_str(START);
    let mut pos = ChessPosition::from_fen(&atk, &parsed).expect("import");
    let shuffle = [
        Move::from_squares(Square(6), Square(21), 0),
        Move::from_squares(Square(62), Square(45), 0),
        Move::from_squares(Square(21), Square(6), 0),
        Move::from_squares(Square(45), Square(62), 0),
    ];
    assert!(!pos.is_repetition());
    for mv in shuffle {
        let legal = pos.board().map_moves(&atk);
        assert!(legal.iter().any(|m| m.get_value() == mv.get_value()));
        pos.make_move(mv);
    }
    assert!(pos.is_repetition());
}

#[test]
fn insufficient_material_detection() {
    let atk = setup();
    let bare_kings = board_from("4k3/8/8/8/8/8/8/4K3 w - - 0 1", &atk);
    assert!(bare_kings.is_insufficient_material());
    let with_queen = board_from("4k3/8/8/8/8/8/8/3QK3 w - - 0 1", &atk);
    assert!(!with_queen.is_insufficient_material());
    let knight_only = board_from("4k3/8/8/8/8/8/8/3NK3 w - - 0 1", &atk);
    assert!(knight_only.is_insufficient_material());
}

#[test]
fn en_passant_capture_is_generated_and_applies() {
    let atk = setup();
    // white pawn on e5, black just double-pushed d7 to d5
    let board = board_from("rnbqkbnr/ppp1pppp/8/3pP3/8/8/PPPP1PPP/RNBQKBNR w KQkq d6 0 3", &atk);
    let ep = board.en_passant_square();
    assert_eq!(ep.get_raw(), 43);
    let moves = board.map_moves(&atk);
    let ep_move = moves.iter().find(|m| m.is_en_passant()).expect("en passant available");
    let mut copy = board;
    copy.make_move(*ep_move);
    // the captured pawn is gone from d5
    assert_eq!(copy.get_piece_on_square(Square(35)).get_raw(), 255);
    assert_eq!(copy.get_piece_on_square(Square(43)).get_raw(), 0);
}

#[test]
fn castling_moves_relocate_the_rook() {
    let atk = setup();
    let board = board_from("r3k2r/8/8/8/8/8/8/R3K2R w KQkq - 0 1", &atk);
    let moves = board.map_moves(&atk);
    let ks = moves
        .iter()
        .find(|m| m.get_flag() == 2 && m.get_from_square().get_raw() == 4)
        .expect("king side castle available");
    let mut copy = board;
    copy.make_move(*ks);
    assert_eq!(copy.get_piece_on_square(Square(6)).get_raw(), 5);
    assert_eq!(copy.get_piece_on_square(Square(5)).get_raw(), 3);
    assert_eq!(copy.get_piece_on_square(Square(7)).get_raw(), 255);
    assert_eq!(copy.castle_rights().get_raw() & 0b1100, 0);
}

#[test]
fn promotion_places_the_chosen_piece() {
    let atk = setup();
    let board = board_from("8/P3k3/8/8/8/8/4K3/8 w - - 0 1", &atk);
    let moves = board.map_moves(&atk);
    let queen_promo = moves
        .iter()
        .find(|m| m.is_promotion() && m.get_promotion_piece().get_raw() == 4)
        .expect("queen promotion available");
    let mut copy = board;
    copy.make_move(*queen_promo);
    assert_eq!(copy.get_piece_on_square(Square(56)).get_raw(), 4);
    assert_eq!(copy.get_piece_on_square(Square(48)).get_raw(), 255);
    assert_eq!(copy.get_phase(), 4);
}

#[test]
fn text_rendering_uses_fixed_point_arithmetic() {
    assert_eq!(StringUtils::time_to_string(123), "123ms");
    assert_eq!(StringUtils::time_to_string(1234), "1.23s");
    assert_eq!(StringUtils::time_to_string(45678), "45.67s");
    assert_eq!(StringUtils::large_number_to_string(999), "999");
    assert_eq!(StringUtils::large_number_to_string(12345), "12.34K");
    assert_eq!(StringUtils::large_number_to_string(123456789), "123.45M");
}

#[test]
fn piece_letters_and_phase_weights() {
    assert_eq!(Piece(0).to_char(), 'p');
    assert_eq!(Piece(4).to_char(), 'q');
    assert_eq!(Piece(5).to_char(), 'k');
    assert_eq!(spear::phase_value(Piece(1)), 1);
    assert_eq!(spear::phase_value(Piece(3)), 2);
    assert_eq!(spear::phase_value(Piece(4)), 4);
}

#[test]
fn validate_fen_filters_obvious_garbage() {
    assert!(FEN::validate_fen(START));
    assert!(!FEN::validate_fen("only three fields here"));
    assert!(!FEN::validate_fen("rnbqkbnr/pppppppp/8/8 w KQkq -"));
}

#[test]
fn move_and_square_text() {
    let quiet = Move::from_squares(Square(12), Square(28), 1);
    assert_eq!(quiet.to_string(), "e2e4");
    let promo = Move::from_squares(Square(52), Square(60), 11);
    assert_eq!(promo.to_string(), "e7e8q");
    let under = Move::from_squares(Square(52), Square(61), 12);
    assert_eq!(under.to_string(), "e7f8n");
    assert_eq!(Square::from_string("d6").get_raw(), 43);
    assert_eq!(Square::from_string("a1").get_raw(), 0);
    assert_eq!(Square::from_string("h8").get_raw(), 63);
    assert_eq!(Square::from_string("z9").get_raw(), 64);
    assert_eq!(Square::from_string("-").get_raw(), 64);
}

#[test]
fn validate_fen_checks_every_field() {
    let board = "rnbqkbnr/pppppppp/8/8/8/8/PPPPPPPP/RNBQKBNR";
    assert!(FEN::validate_fen(&format!("{board} w KQkq - 0 1")));
    assert!(FEN::validate_fen(&format!("{board} b - - 12 34")));
    // side field must be w or b
    assert!(!FEN::validate_fen(&format!("{board} x KQkq - 0 1")));
    // the castling field must hold a rights letter or the dash
    assert!(!FEN::validate_fen(&format!("{board} w zz - 0 1")));
    // the en-passant field must be a square name or the dash
    assert!(!FEN::validate_fen(&format!("{board} w KQkq h9 0 1")));
    // the counters must be numeric and small enough
    assert!(!FEN::validate_fen(&format!("{board} w KQkq - abc 1")));
    assert!(!FEN::validate_fen(&format!("{board} w KQkq - 999 1")));
}
