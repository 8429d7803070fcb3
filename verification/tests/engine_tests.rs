//! Check detection, legal-move generation, evaluation, search and the
//! string surface.

use duchess::board::{Board, Color, MoveType, Pos};
use duchess::evaluation::Valuable;
use duchess::minimax::minimax;
use duchess::misc::{MoveOrdering, Options, SearchAlgorithm, Ui};
use duchess::negamax::negamax;
use duchess::negascout::negascout;

fn opts(algo: SearchAlgorithm, ordering: MoveOrdering, depth: u8, alpha_beta: bool) -> Options {
    Options { search_algo: algo, move_ordering: ordering, max_depth: depth, ui: Ui::Uci, alpha_beta }
}

#[test]
pub fn test_is_king_in_check() {
    let fen = "rnbqk1nr/pppp1ppp/8/8/1bPp4/6P1/PP2PP1P/RNBQKBNR w KQkq - 0 0";
    let b = Board::from_fen(fen).unwrap();
    assert!(b.is_king_in_check(Color::White));
}

#[test]
fn test_initial_position() {
    let fen = "rnbqkbnr/pppppppp/8/8/8/8/PPPPPPPP/RNBQKBNR w KQkq - 0 0";
    let b = Board::from_fen(fen).unwrap();
    assert_eq!(b.to_fen(), fen);
    assert_eq!(b.king_pos[Color::White.idx()], Pos::at(4, 0).unwrap());
    assert_eq!(b.king_pos[Color::Black.idx()], Pos::at(4, 7).unwrap());
    let moves = b.generate_all();
    assert_eq!(moves.len(), 20);
    assert!(!b.is_king_in_check(Color::White));
    assert!(!b.is_king_in_check(Color::Black));
}

#[test]
fn test_fools_mate_is_checkmate() {
    let fen = "rnb1kbnr/pppp1ppp/8/4p3/6Pq/5P2/PPPPP2P/RNBQKBNR w KQkq - 0 0";
    let b = Board::from_fen(fen).unwrap();
    assert!(b.is_king_in_check(Color::White));
    assert_eq!(b.generate_all().len(), 0);
    assert_eq!(duchess::check_end_game(fen), "checkmate white");
}

#[test]
fn test_stalemate_is_a_draw() {
    let fen = "7k/5Q2/6K1/8/8/8/8/8 b - - 0 0";
    let b = Board::from_fen(fen).unwrap();
    assert!(!b.is_king_in_check(Color::Black));
    assert_eq!(b.generate_all().len(), 0);
    assert_eq!(duchess::check_end_game(fen), "draw");
}

#[test]
fn test_check_end_game_in_progress() {
    assert_eq!(
        duchess::check_end_game("rnbqkbnr/pppppppp/8/8/8/8/PPPPPPPP/RNBQKBNR w KQkq - 0 0"),
        "none"
    );
    assert_eq!(duchess::check_end_game("not a position"), "illegal_input");
}

#[test]
fn test_check_move_classifies() {
    let b = Board::from_fen("rnbqkbnr/pppppppp/8/8/8/8/PPPPPPPP/RNBQKBNR w KQkq - 0 0").unwrap();
    let e2 = Pos::from_coord("e2").unwrap();
    let e4 = Pos::from_coord("e4").unwrap();
    let e5 = Pos::from_coord("e5").unwrap();
    assert_eq!(b.check_move(e2, e4, 0), MoveType::Move);
    assert_eq!(b.check_move(e2, e5, 0), MoveType::Illegal);
    // Seeing through one obstacle lets the rook pass its own pawn.
    let a1 = Pos::from_coord("a1").unwrap();
    let a4 = Pos::from_coord("a4").unwrap();
    assert_eq!(b.check_move(a1, a4, 0), MoveType::Illegal);
    assert_eq!(b.check_move(a1, a4, 1), MoveType::Move);
}

#[test]
fn test_make_move_surface() {
    let start = "rnbqkbnr/pppppppp/8/8/8/8/PPPPPPPP/RNBQKBNR w KQkq - 0 0";
    assert_eq!(
        duchess::make_move(start, "e2", "e4"),
        "rnbqkbnr/pppppppp/8/8/4P3/8/PPPP1PPP/RNBQKBNR b KQkq - 0 0"
    );
    assert_eq!(duchess::make_move(start, "e2", "e5"), "illegal");
    assert_eq!(duchess::make_move(start, "e9", "e4"), "illegal_input");
    assert_eq!(duchess::make_move("garbage", "e2", "e4"), "illegal_input");
}

#[test]
fn test_evaluation_is_odd_in_side() {
    // The mirror of a position (colors swapped, board rotated a half
    // turn) evaluates to the exact negation.
    let b = Board::from_fen("6k1/5ppp/8/8/8/2N5/5PPP/R5K1 w - - 0 0").unwrap();
    let m = Board::from_fen("1k5r/ppp5/5n2/8/8/8/PPP5/1K6 b - - 0 0").unwrap();
    assert_eq!(b.value(), -m.value());
    // The starting position is symmetric, so its value is zero.
    let s = Board::from_fen("rnbqkbnr/pppppppp/8/8/8/8/PPPPPPPP/RNBQKBNR w KQkq - 0 0").unwrap();
    assert_eq!(s.value(), 0);
}

#[test]
fn test_search_finds_mate_in_one() {
    let b = Board::from_fen("6k1/5ppp/8/8/8/8/5PPP/R5K1 w - - 0 0").unwrap();
    let o = opts(SearchAlgorithm::Negamax, MoveOrdering::Eval, 2, true);
    let (score, mv) = negamax(&b, &o);
    assert_eq!(mv.to_string(), "a1a8");
    assert!(score > 30000);
}

#[test]
fn test_search_is_deterministic_under_eval_ordering() {
    let b = Board::from_fen("6k1/5ppp/8/8/8/2N5/5PPP/R5K1 w - - 0 0").unwrap();
    let o = opts(SearchAlgorithm::Negamax, MoveOrdering::Eval, 2, true);
    let r1 = negamax(&b, &o);
    let r2 = negamax(&b, &o);
    assert_eq!(r1, r2);
    let s1 = negascout(&b, &o).unwrap();
    let s2 = negascout(&b, &o).unwrap();
    assert_eq!(s1, s2);
}

#[test]
fn test_pruning_does_not_change_the_root_score() {
    let b = Board::from_fen("6k1/5ppp/8/8/8/8/5PPP/R5K1 w - - 0 0").unwrap();
    let with = opts(SearchAlgorithm::Negamax, MoveOrdering::Eval, 3, true);
    let without = opts(SearchAlgorithm::Negamax, MoveOrdering::Eval, 3, false);
    let (s1, _) = negamax(&b, &with);
    let (s2, _) = negamax(&b, &without);
    assert_eq!(s1, s2);
}

#[test]
fn test_three_searches_agree_on_a_forced_mate() {
    let b = Board::from_fen("6k1/5ppp/8/8/8/8/5PPP/R5K1 w - - 0 0").unwrap();
    let o = opts(SearchAlgorithm::Negamax, MoveOrdering::Eval, 2, true);
    let (ns, nm) = negamax(&b, &o);
    let (ms, mm) = minimax(&b, &o);
    let (ss, sm) = negascout(&b, &o).unwrap();
    assert_eq!(nm.to_string(), "a1a8");
    assert_eq!(mm.to_string(), "a1a8");
    assert_eq!(sm.to_string(), "a1a8");
    assert!(ns > 30000 && ms > 30000 && ss > 30000);
}

#[test]
fn test_random_ordering_still_returns_a_legal_move() {
    let b = Board::from_fen("6k1/5ppp/8/8/8/8/5PPP/R5K1 w - - 0 0").unwrap();
    let o = opts(SearchAlgorithm::Negamax, MoveOrdering::Rand, 2, true);
    let (_score, mv) = negamax(&b, &o);
    let legal = b.generate_all();
    assert!(legal.iter().any(|(m, _)| *m == mv));
}

#[test]
fn test_negascout_reports_no_move_when_the_game_is_over() {
    let b = Board::from_fen("7k/5Q2/6K1/8/8/8/8/8 b - - 0 0").unwrap();
    let o = opts(SearchAlgorithm::Negascout, MoveOrdering::Eval, 3, true);
    assert!(negascout(&b, &o).is_none());
}

#[test]
fn test_find_best_move_returns_a_position() {
    let out = duchess::find_best_move("k7/8/8/8/8/8/8/K7 w - - 0 0");
    assert_ne!(out, "illegal_input");
    assert_ne!(out, "none");
    let b = Board::from_fen(&out).unwrap();
    assert_eq!(b.player, Color::Black);
    assert_eq!(duchess::find_best_move("garbage"), "illegal_input");
    // A finished game has no move to find.
    assert_eq!(duchess::find_best_move("7k/5Q2/6K1/8/8/8/8/8 b - - 0 0"), "none");
}

#[test]
fn test_castling_through_pieces_is_rejected() {
    // Bishop still on f1: king-side castling is not generated.
    let b = Board::from_fen("r3k2r/pppppppp/8/8/8/8/PPPPPPPP/R3KB1R w KQkq - 0 0").unwrap();
    let legal = b.generate_all();
    assert!(!legal.iter().any(|(m, _)| m.to_string() == "e1g1"));
    assert_eq!(
        duchess::make_move("r3k2r/pppppppp/8/8/8/8/PPPPPPPP/R3KB1R w KQkq - 0 0", "e1", "g1"),
        "illegal"
    );
}

#[test]
fn test_evaluation_exact_value() {
    // A lone white pawn on e4: material 100 plus a table bonus of 20;
    // the kings on their home squares contribute zero between them.
    let b = Board::from_fen("4k3/8/8/8/4P3/8/8/4K3 w - - 0 0").unwrap();
    assert_eq!(b.value(), 120);
}

#[test]
fn test_kings_may_not_touch() {
    // Moving the white king adjacent to the black king is illegal.
    assert_eq!(duchess::make_move("8/8/8/3k4/8/3K4/8/8 w - - 0 0", "d3", "d4"), "illegal");
    // A plain retreat is fine.
    assert_ne!(duchess::make_move("8/8/8/3k4/8/3K4/8/8 w - - 0 0", "d3", "d2"), "illegal");
}

#[test]
fn test_shuffled_search_scores_match_ordered_ones() {
    // The negamax root score is independent of the child ordering,
    // shuffling included; only the chosen move may differ among ties.
    let b = Board::from_fen("6k1/5ppp/8/8/8/2N5/5PPP/R5K1 w - - 0 0").unwrap();
    let eval = opts(SearchAlgorithm::Negamax, MoveOrdering::Eval, 2, true);
    let rand = opts(SearchAlgorithm::Negamax, MoveOrdering::Rand, 2, true);
    let (se, _) = negamax(&b, &eval);
    let (sr, _) = negamax(&b, &rand);
    assert_eq!(se, sr);
    // The same holds of unpruned minimax.
    let meval = opts(SearchAlgorithm::Minimax, MoveOrdering::Eval, 2, false);
    let mrand = opts(SearchAlgorithm::Minimax, MoveOrdering::Rand, 2, false);
    let (me, _) = minimax(&b, &meval);
    let (mr, _) = minimax(&b, &mrand);
    assert_eq!(me, mr);
}

#[test]
fn test_memo_slot_is_filled_by_generation() {
    // The generator writes each child's evaluation into its memo
    // slot, and the stored value is the evaluation itself.
    let b = Board::from_fen("4k3/8/8/8/4P3/8/8/4K3 w - - 0 0").unwrap();
    assert!(b.stored_value.is_none());
    for (_mv, child) in b.generate_all() {
        assert_eq!(child.stored_value, Some(child.value()));
    }
}
