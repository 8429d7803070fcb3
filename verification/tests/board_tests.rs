//! Parsing, printing and move application.

use duchess::board::{Board, Color, Move, Piece, Pos, Tile};

#[test]
pub fn test_parse_pos() {
    let coords_in = "G8";
    let pos = Pos::from_coord(coords_in).expect("legal");
    let coords_out = pos.to_string();
    assert_eq!(coords_in.to_ascii_lowercase(), coords_out);
}

#[test]
pub fn test_parse_move() {
    let mv_in = "e7e8";
    let mv = Move::parse(mv_in).expect("legal");
    let mv_out = mv.to_string();
    assert_eq!(mv_in.to_ascii_lowercase(), mv_out);
}

#[test]
pub fn test_fen1() {
    let fen = "rnbqkbnr/pppppppp/8/8/8/8/PPPPPPPP/RNBQKBNR w KQkq - 0 0";
    let b = Board::from_fen(fen).unwrap();
    assert_eq!(fen, b.to_fen());
    assert_eq!(b.king_pos[Color::White.idx()], Pos::at(4, 0).unwrap());
    assert_eq!(b.king_pos[Color::Black.idx()], Pos::at(4, 7).unwrap());
}

#[test]
fn test_move_text_round_trip_with_promotion() {
    let mv = Move::parse("e7e8q").expect("legal");
    assert_eq!(mv.promotion, Some(Piece::Queen));
    assert_eq!(mv.to_string(), "e7e8q");
    let mv2 = Move::parse("a2a4").expect("legal");
    assert_eq!(mv2.promotion, None);
    assert_eq!(mv2.to_string(), "a2a4");
}

#[test]
fn test_parse_pos_rejects_bad_squares() {
    assert!(Pos::from_coord("a9").is_none());
    assert!(Pos::from_coord("z1").is_none());
    assert!(Pos::from_coord("a").is_none());
    assert!(Pos::from_coord("a10").is_none());
}

#[test]
fn test_parse_move_rejects_bad_text() {
    assert!(Move::parse("e7").is_err());
    assert!(Move::parse("e7e9").is_err());
    assert!(Move::parse("e7e8x").is_err());
    assert!(Move::parse("e7e8qq").is_err());
}

#[test]
fn test_fen_round_trips() {
    let fens = [
        "rnbqkbnr/pppppppp/8/8/8/8/PPPPPPPP/RNBQKBNR w KQkq - 0 0",
        "rnb1kbnr/pppp1ppp/8/4p3/6Pq/5P2/PPPPP2P/RNBQKBNR w KQkq - 0 0",
        "7k/5Q2/6K1/8/8/8/8/8 b - - 0 0",
        "r3k2r/pppppppp/8/8/8/8/PPPPPPPP/R3K2R w KQkq - 0 0",
        "8/P7/8/8/8/8/8/k6K w - - 0 0",
        "6k1/5ppp/8/8/8/8/5PPP/R5K1 w - - 0 0",
    ];
    for fen in fens.iter() {
        let b = Board::from_fen(fen).unwrap();
        assert_eq!(*fen, b.to_fen());
    }
}

#[test]
fn test_fen_rejects_malformed_positions() {
    // A rank of nine columns.
    assert!(Board::from_fen("9/8/8/8/8/8/8/8 w - - 0 0").is_err());
    // A rank short of eight columns.
    assert!(Board::from_fen("rnbqkbnr/ppppppp1/7/8/8/8/PPPPPPPP/RNBQKBNR w KQkq - 0 0").is_err());
    // A digit exceeding the remaining width.
    assert!(Board::from_fen("rnbqkbnr/pppppppp/44p/8/8/8/PPPPPPPP/RNBQKBNR w KQkq - 0 0").is_err());
    // Missing fields.
    assert!(Board::from_fen("rnbqkbnr/pppppppp/8/8/8/8/PPPPPPPP/RNBQKBNR w").is_err());
    assert!(Board::from_fen("").is_err());
    // A bad side-to-move letter.
    assert!(Board::from_fen("rnbqkbnr/pppppppp/8/8/8/8/PPPPPPPP/RNBQKBNR x KQkq - 0 0").is_err());
    // No White king.
    assert!(Board::from_fen("rnbqkbnr/pppppppp/8/8/8/8/PPPPPPPP/RNBQ1BNR w KQkq - 0 0").is_err());
    // Two kings of one side.
    assert!(Board::from_fen("rnbqkbnr/pppppppp/8/8/4K3/8/PPPPPPPP/RNBQKBNR w KQkq - 0 0").is_err());
    // An unknown piece letter.
    assert!(Board::from_fen("rnbqkbnr/ppppppxp/8/8/8/8/PPPPPPPP/RNBQKBNR w KQkq - 0 0").is_err());
}

#[test]
fn test_fen_tolerates_extra_fields_and_spacing() {
    let b = Board::from_fen("rnbqkbnr/pppppppp/8/8/8/8/PPPPPPPP/RNBQKBNR   w  KQkq e3 17 42").unwrap();
    assert_eq!(b.to_fen(), "rnbqkbnr/pppppppp/8/8/8/8/PPPPPPPP/RNBQKBNR w KQkq - 0 0");
}

#[test]
fn test_apply_move_updates_king_cache_and_rights() {
    let b = Board::from_fen("r3k2r/pppppppp/8/8/8/8/PPPPPPPP/R3K2R w KQkq - 0 0").unwrap();
    let mv = Move::parse("e1d1").expect("legal");
    let b2 = b.clone_apply_move(&mv);
    // The king cache follows the king (the king-cache law on concrete data).
    assert_eq!(b2.king_pos[Color::White.idx()], Pos::at(3, 0).unwrap());
    assert_eq!(
        b2.at(b2.king_pos[Color::White.idx()]),
        Some(Tile { piece: Piece::King, color: Color::White })
    );
    // A king move drops both of its side's rights, and rights are never regained.
    assert!(!b2.can_castle_ks[Color::White.idx()]);
    assert!(!b2.can_castle_qs[Color::White.idx()]);
    assert!(b2.can_castle_ks[Color::Black.idx()]);
    assert!(b2.can_castle_qs[Color::Black.idx()]);
    assert_eq!(b2.player, Color::Black);
}

#[test]
fn test_rook_moves_and_captures_drop_single_rights() {
    let b = Board::from_fen("r3k2r/pppppppp/8/8/8/8/PPPPPPPP/R3K2R w KQkq - 0 0").unwrap();
    // The queen-side rook leaves its corner.
    let b2 = b.clone_apply_move(&Move::parse("a1b1").expect("legal"));
    assert!(!b2.can_castle_qs[Color::White.idx()]);
    assert!(b2.can_castle_ks[Color::White.idx()]);
    // A rook captured on its corner drops the owner's right.
    let c = Board::from_fen("r3k2r/8/8/8/8/8/8/R3K2R w KQkq - 0 0").unwrap();
    let c2 = c.clone_apply_move(&Move::parse("a1a8").expect("legal"));
    assert!(!c2.can_castle_qs[Color::Black.idx()]);
    assert!(c2.can_castle_ks[Color::Black.idx()]);
}

#[test]
fn test_white_king_side_castle() {
    let b = Board::from_fen("r3k2r/pppppppp/8/8/8/8/PPPPPPPP/R3K2R w KQkq - 0 0").unwrap();
    let out = duchess::make_move(
        "r3k2r/pppppppp/8/8/8/8/PPPPPPPP/R3K2R w KQkq - 0 0",
        "e1",
        "g1",
    );
    assert_eq!(out, "r3k2r/pppppppp/8/8/8/8/PPPPPPPP/R4RK1 b kq - 0 0");
    // Applying the move directly shows the rook slide and the rights drop.
    let b2 = b.clone_apply_move(&Move::parse("e1g1").expect("legal"));
    assert_eq!(b2.at(Pos::at(6, 0).unwrap()), Some(Tile { piece: Piece::King, color: Color::White }));
    assert_eq!(b2.at(Pos::at(5, 0).unwrap()), Some(Tile { piece: Piece::Rook, color: Color::White }));
    assert_eq!(b2.at(Pos::at(7, 0).unwrap()), None);
    assert!(!b2.can_castle_ks[Color::White.idx()]);
    assert!(!b2.can_castle_qs[Color::White.idx()]);
}

#[test]
fn test_pawn_promotion_to_queen() {
    let out = duchess::make_move("8/P7/8/8/8/8/8/k6K w - - 0 0", "a7", "a8");
    assert_eq!(out, "Q7/8/8/8/8/8/8/k6K b - - 0 0");
}

#[test]
fn test_board_new_is_the_starting_position() {
    let b = Board::new(Color::White);
    assert_eq!(b.to_fen(), "rnbqkbnr/pppppppp/8/8/8/8/PPPPPPPP/RNBQKBNR w KQkq - 0 0");
    let b2 = Board::new(Color::Black);
    assert_eq!(b2.to_fen(), "rnbqkbnr/pppppppp/8/8/8/8/PPPPPPPP/RNBQKBNR b KQkq - 0 0");
}

#[test]
fn test_as_ascii_shows_the_grid() {
    let b = Board::new(Color::White);
    let text = b.as_ascii();
    assert!(text.contains("|r|n|b|q|k|b|n|r|"));
    assert!(text.contains("|R|N|B|Q|K|B|N|R|"));
    assert!(text.contains("player: w"));
}
