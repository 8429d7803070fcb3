//! Engine configuration: the search algorithm, the move-ordering
//! policy, the driving user interface, and the progress record a
//! search emits.

use vstd::prelude::*;

use crate::board::Move;
use crate::evaluation::Value;

verus! {

/// Which adversarial search runs.
#[derive(Debug, Copy, Clone, PartialEq, Eq, Structural)]
pub enum SearchAlgorithm {
    Minimax,
    Negamax,
    Negascout,
}

/// How the children of a node are ordered before the search visits
/// them.
#[derive(Debug, Copy, Clone, PartialEq, Eq, Structural)]
pub enum MoveOrdering {
    /// Keep the generated order.
    NoOrder,
    Rand,
    Eval,
}

/// Which outer driver talks to the engine.
#[derive(Debug, Copy, Clone, PartialEq, Eq, Structural)]
pub enum Ui {
    Uci,
    AnsiTerm,
}

/// The options a search runs under.
#[derive(Debug, Copy, Clone, PartialEq, Eq, Structural)]
pub struct Options {
    pub search_algo: SearchAlgorithm,
    pub move_ordering: MoveOrdering,
    /// Plies searched from the root; positive.
    pub max_depth: u8,
    pub ui: Ui,
    /// When false, negamax searches without pruning.
    pub alpha_beta: bool,
}

impl Default for Options {
    /// The options the engine runs under when none are given.
    fn default() -> (r: Options)
        ensures
            r == spec_default_options(),
    {
        Options {
            search_algo: SearchAlgorithm::Negamax,
            move_ordering: MoveOrdering::Eval,
            max_depth: 5,
            ui: Ui::Uci,
            alpha_beta: true,
        }
    }
}

/// The default options: negamax at depth five with evaluation
/// ordering and pruning, driven over the UCI protocol.
pub open spec fn spec_default_options() -> Options {
    Options {
        search_algo: SearchAlgorithm::Negamax,
        move_ordering: MoveOrdering::Eval,
        max_depth: 5,
        ui: Ui::Uci,
        alpha_beta: true,
    }
}

/// A progress record emitted at the root of a search.
#[derive(Debug, Copy, Clone, PartialEq, Eq, Structural)]
pub struct SearchInfo {
    pub depth: u8,
    pub curr_move: Option<Move>,
    pub score_cp: Value,
    pub nodes: u64,
    pub nps: u64,
}

impl SearchInfo {
    /// A fresh record with every field zeroed.
    pub fn new() -> (r: Self)
        ensures
            r == (SearchInfo {
                depth: 0u8,
                curr_move: None::<Move>,
                score_cp: 0i16,
                nodes: 0u64,
                nps: 0u64,
            }),
    {
        SearchInfo { depth: 0, curr_move: None, score_cp: 0, nodes: 0, nps: 0 }
    }
}

} // verus!
