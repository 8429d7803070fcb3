//! A small chess engine: board representation, legal-move generation,
//! a positional evaluator and an adversarial search that picks the best
//! move for the side to move. This module holds the surface an
//! embedding host calls: strings in, strings out.

pub mod board;
pub mod evaluation;
pub mod fen;
pub mod generation;
pub mod inspection;
pub mod minimax;
pub mod misc;
pub mod negamax;
pub mod negascout;
pub mod ordering;

use vstd::prelude::*;

use crate::board::{spec_parse_pos, Board, Color, GameEnd, Move, MoveType, Pos};
use crate::fen::{spec_board_of_fen, spec_fen_ok, spec_fen_str};
use crate::generation::{lemma_generate_all_sound, spec_generate_all};
use crate::inspection::{spec_check_move, spec_end_game};
use crate::misc::{spec_default_options, Options};
use crate::negascout::{negascout, spec_negascout_root};

verus! {

/// What `find_best_move` returns: the FEN of the position after the
/// best move of a search under the default options, or
/// `"illegal_input"` for an unparseable position, or `"none"` when the
/// side to move has no legal move.
pub open spec fn spec_find_best_move(s: Seq<char>) -> Seq<char> {
    if !spec_fen_ok(s) {
        "illegal_input"@
    } else {
        let b = spec_board_of_fen(s);
        if spec_generate_all(b).len() == 0 {
            "none"@
        } else {
            match spec_negascout_root(b, spec_default_options()) {
                Some((v, Some(m))) => spec_fen_str(crate::board::spec_apply_move(b, m)),
                _ => "none"@,
            }
        }
    }
}

/// Computes the best move for the side to move of the given position
/// and returns the FEN of the position after it.
pub fn find_best_move(from_fen_text: &str) -> (r: String)
    ensures
        r@ == spec_find_best_move(from_fen_text@),
{
    let b = match Board::from_fen(from_fen_text) {
        Err(_) => {
            return "illegal_input".to_owned();
        },
        Ok(v) => v,
    };
    let opts = Options::default();
    match negascout(&b, &opts) {
        None => "none".to_owned(),
        Some((_score, mv)) => {
            proof {
                lemma_generate_all_sound(b);
                let k = choose|k: int|
                    0 <= k < spec_generate_all(b).len() && spec_generate_all(b)[k].0 == mv;
            }
            b.clone_apply_move(&mv).to_fen()
        },
    }
}

/// What `make_move` returns: the FEN after the user's move when it is
/// legal, `"illegal"` when it is parseable but not playable, and
/// `"illegal_input"` when the position or a square does not parse.
pub open spec fn spec_make_move(s: Seq<char>, fs: Seq<char>, ts: Seq<char>) -> Seq<char> {
    if !spec_fen_ok(s) {
        "illegal_input"@
    } else {
        match (spec_parse_pos(fs), spec_parse_pos(ts)) {
            (Some(f), Some(t)) => {
                let b = spec_board_of_fen(s);
                if spec_check_move(b, f, t, 0) == MoveType::Illegal {
                    "illegal"@
                } else {
                    spec_fen_str(
                        crate::board::spec_apply_move(
                            b,
                            Move { f_pos: f, t_pos: t, promotion: None },
                        ),
                    )
                }
            },
            _ => "illegal_input"@,
        }
    }
}

/// Validates a user-supplied move against the given position and,
/// when it is legal, applies it and returns the new FEN.
pub fn make_move(from_fen_text: &str, from_pos: &str, to_pos: &str) -> (r: String)
    ensures
        r@ == spec_make_move(from_fen_text@, from_pos@, to_pos@),
{
    let b = match Board::from_fen(from_fen_text) {
        Err(_) => {
            return "illegal_input".to_owned();
        },
        Ok(v) => v,
    };
    let f_pos = match Pos::from_coord(from_pos) {
        None => {
            return "illegal_input".to_owned();
        },
        Some(v) => v,
    };
    let t_pos = match Pos::from_coord(to_pos) {
        None => {
            return "illegal_input".to_owned();
        },
        Some(v) => v,
    };
    let mt = b.check_move(f_pos, t_pos, 0);
    match mt {
        MoveType::Illegal => "illegal".to_owned(),
        _ => {
            proof {
                crate::inspection::lemma_check_piece_ok(b, f_pos, t_pos, 0);
            }
            b.clone_apply_move(&Move { f_pos, t_pos, promotion: None }).to_fen()
        },
    }
}

/// What `check_end_game` returns for each classification.
pub open spec fn spec_check_end_game(s: Seq<char>) -> Seq<char> {
    if !spec_fen_ok(s) {
        "illegal_input"@
    } else {
        match spec_end_game(spec_board_of_fen(s)) {
            Some(GameEnd::Draw) => "draw"@,
            Some(GameEnd::Checkmate(Color::Black)) => "checkmate black"@,
            Some(GameEnd::Checkmate(Color::White)) => "checkmate white"@,
            None => "none"@,
        }
    }
}

/// Reports whether and in what way the game in the given position has
/// ended.
pub fn check_end_game(from_fen_text: &str) -> (r: String)
    ensures
        r@ == spec_check_end_game(from_fen_text@),
{
    let b = match Board::from_fen(from_fen_text) {
        Err(_) => {
            return "illegal_input".to_owned();
        },
        Ok(v) => v,
    };
    match b.check_end_game() {
        Some(GameEnd::Draw) => "draw".to_owned(),
        Some(GameEnd::Checkmate(Color::Black)) => "checkmate black".to_owned(),
        Some(GameEnd::Checkmate(Color::White)) => "checkmate white".to_owned(),
        None => "none".to_owned(),
    }
}

} // verus!
