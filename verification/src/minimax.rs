//! Plain minimax with optional alpha–beta pruning: scores are always
//! from White's perspective, White maximizes and Black minimizes.

use vstd::prelude::*;

use crate::board::{spec_move_ok, Board, Color, Move};
use crate::evaluation::{spec_board_value, Valuable, Value};
use crate::generation::{lemma_generate_all_sound, spec_entry_sound, spec_generate_all};
use crate::misc::{MoveOrdering, Options};
use crate::negamax::{lemma_perm_entries, spec_children, spec_imax, spec_moves_from, spec_moves_from_some, spec_no_ab};
use crate::ordering::move_ordering;

verus! {

/// The maximizing loop over the children from index `i` on.
pub open spec fn spec_max_loop(
    children: Seq<(Move, Board)>,
    i: int,
    alpha: int,
    beta: int,
    best: int,
    best_move: Option<Move>,
    depth: int,
    opts: Options,
) -> (int, Option<Move>)
    decreases opts.max_depth - depth, 0int, children.len() - i,
{
    if i < 0 || i >= children.len() || depth >= opts.max_depth as int {
        (best, best_move)
    } else {
        let score = spec_minimize(children[i].1, alpha, beta, depth + 1, opts).0;
        let cond = score > best || (depth == 0 && best_move is None);
        let best2 = if cond && score > best {
            score
        } else {
            best
        };
        let bm2 = if cond && depth == 0 {
            Some(children[i].0)
        } else {
            best_move
        };
        let alpha2 = if cond && opts.alpha_beta && alpha < best2 {
            best2
        } else {
            alpha
        };
        if cond && opts.alpha_beta && alpha2 >= beta {
            (best2, bm2)
        } else {
            spec_max_loop(children, i + 1, alpha2, beta, best2, bm2, depth, opts)
        }
    }
}

/// The minimizing loop over the children from index `i` on.
pub open spec fn spec_min_loop(
    children: Seq<(Move, Board)>,
    i: int,
    alpha: int,
    beta: int,
    best: int,
    best_move: Option<Move>,
    depth: int,
    opts: Options,
) -> (int, Option<Move>)
    decreases opts.max_depth - depth, 0int, children.len() - i,
{
    if i < 0 || i >= children.len() || depth >= opts.max_depth as int {
        (best, best_move)
    } else {
        let score = spec_maximize(children[i].1, alpha, beta, depth + 1, opts).0;
        let cond = score < best || (depth == 0 && best_move is None);
        let best2 = if cond && score < best {
            score
        } else {
            best
        };
        let bm2 = if cond && depth == 0 {
            Some(children[i].0)
        } else {
            best_move
        };
        let beta2 = if cond && opts.alpha_beta && best2 < beta {
            best2
        } else {
            beta
        };
        if cond && opts.alpha_beta && beta2 <= alpha {
            (best2, bm2)
        } else {
            spec_min_loop(children, i + 1, alpha, beta2, best2, bm2, depth, opts)
        }
    }
}

/// A maximizing node: the static evaluation at the horizon, else the
/// best score any child's minimizing answer allows.
pub open spec fn spec_maximize(b: Board, alpha: int, beta: int, depth: int, opts: Options) -> (
    int,
    Option<Move>,
)
    decreases opts.max_depth - depth, 1int, 0int,
{
    if depth >= opts.max_depth as int {
        (spec_board_value(b), None)
    } else {
        spec_max_loop(spec_children(b, 1, opts), 0, alpha, beta, -32767, None, depth, opts)
    }
}

/// A minimizing node: the static evaluation at the horizon, else the
/// least score any child's maximizing answer allows. Its children are
/// ordered for the minimizing side, ascending by evaluation.
pub open spec fn spec_minimize(b: Board, alpha: int, beta: int, depth: int, opts: Options) -> (
    int,
    Option<Move>,
)
    decreases opts.max_depth - depth, 1int, 0int,
{
    if depth >= opts.max_depth as int {
        (spec_board_value(b), None)
    } else {
        spec_min_loop(spec_children(b, -1, opts), 0, alpha, beta, 32766, None, depth, opts)
    }
}

/// The root result: Black minimizes, White maximizes, both over the
/// full window.
pub open spec fn spec_minimax_root(b: Board, opts: Options) -> (int, Option<Move>) {
    match b.player {
        Color::Black => spec_minimize(b, -32768, 32767, 0, opts),
        Color::White => spec_maximize(b, -32768, 32767, 0, opts),
    }
}

/// One maximizing node with the window `(alpha, beta)`.
#[verifier::rlimit(100)]
fn maximize(b: &Board, mut alpha: Value, beta: Value, depth: u8, opts: &Options) -> (r: (
    Value,
    Option<Move>,
))
    requires
        b.wf(),
        opts.max_depth >= 1,
        depth <= opts.max_depth,
    ensures
        -32767 <= r.0 <= 32767,
        opts.move_ordering != MoveOrdering::Rand ==> (r.0 as int, r.1) == spec_maximize(
            *b,
            alpha as int,
            beta as int,
            depth as int,
            *opts,
        ),
        r.1 is Some ==> depth == 0 && spec_moves_from_some(*b, r.1.unwrap()),
        depth == 0 && spec_generate_all(*b).len() > 0 ==> r.1 is Some,
        // Without pruning the score is the canonical value, however
        // the children were ordered.
        !opts.alpha_beta ==> r.0 as int == spec_maximize(
            *b,
            -32768,
            32767,
            depth as int,
            spec_no_ab(*opts),
        ).0,
    decreases opts.max_depth - depth, 1int,
{
    if depth == opts.max_depth {
        return (b.value(), None);
    }

    let mut bs: Vec<(Move, Board)> = b.generate_all();
    proof {
        lemma_generate_all_sound(*b);
    }
    move_ordering(&mut bs, 1, opts);
    proof {
        broadcast use vstd::seq_lib::group_to_multiset_ensures;

        lemma_perm_entries(spec_generate_all(*b), bs@);
        assert(bs@.len() == bs@.to_multiset().len());
        assert(spec_generate_all(*b).len() == spec_generate_all(*b).to_multiset().len());
        if opts.move_ordering != MoveOrdering::Rand {
            assert(bs@ == spec_children(*b, 1, *opts));
        }
    }

    let ghost children = bs@;
    let ghost alpha0 = alpha as int;

    let mut best_score: Value = -32767;
    let mut best_move: Option<Move> = None;
    let mut i: usize = 0;
    let mut cut: bool = false;
    while !cut && i < bs.len()
        invariant
            b.wf(),
            opts.max_depth >= 1,
            depth < opts.max_depth,
            -32767 <= best_score <= 32767,
            bs@ == children,
            i <= children.len(),
            children.len() == spec_generate_all(*b).len(),
            forall|j: int|
                0 <= j < spec_generate_all(*b).len() ==> spec_move_ok(
                    *b,
                    (#[trigger] spec_generate_all(*b)[j]).0,
                ) && spec_generate_all(*b)[j].1.wf(),
            forall|j: int|
                0 <= j < children.len() ==> spec_moves_from(
                    spec_generate_all(*b),
                    #[trigger] children[j],
                ),
            forall|j: int|
                0 <= j < spec_generate_all(*b).len() ==> spec_entry_sound(
                    *b,
                    #[trigger] spec_generate_all(*b)[j],
                ),
            best_move is Some ==> depth == 0 && spec_moves_from_some(*b, best_move.unwrap()),
            depth == 0 && i > 0 && !cut ==> best_move is Some,
            cut ==> best_move is Some || depth != 0,
            cut ==> opts.alpha_beta,
            !opts.alpha_beta ==> best_score as int == spec_imax(
                -32767,
                spec_pre_max(children, i as int, depth as int, *opts),
            ),
            opts.move_ordering != MoveOrdering::Rand && !cut ==> spec_maximize(
                *b,
                alpha0,
                beta as int,
                depth as int,
                *opts,
            ) == spec_max_loop(
                children,
                i as int,
                alpha as int,
                beta as int,
                best_score as int,
                best_move,
                depth as int,
                *opts,
            ),
            opts.move_ordering != MoveOrdering::Rand && cut ==> spec_maximize(
                *b,
                alpha0,
                beta as int,
                depth as int,
                *opts,
            ) == (best_score as int, best_move),
        decreases children.len() - i, (if cut { 0int } else { 1int }),
    {
        let mv = bs[i].0;
        let child = bs[i].1;
        proof {
            assert(spec_moves_from(spec_generate_all(*b), children[i as int]));
            let k = choose|k: int|
                0 <= k < spec_generate_all(*b).len() && spec_generate_all(*b)[k] == children[i as int];
            assert(spec_entry_sound(*b, spec_generate_all(*b)[k]));
            assert(child.wf());
        }
        let sub = minimize(&child, alpha, beta, depth + 1, opts);
        let score: Value = sub.0;
        proof {
            if !opts.alpha_beta {
                assert(spec_no_ab(spec_no_ab(*opts)) == spec_no_ab(*opts));
                assert(score as int == spec_cv_max(children[i as int], depth as int, *opts));
                assert(spec_pre_max(children, i as int + 1, depth as int, *opts) == spec_imax(
                    spec_pre_max(children, i as int, depth as int, *opts),
                    spec_cv_max(children[i as int], depth as int, *opts),
                ));
            }
        }
        if score > best_score || (depth == 0 && best_move.is_none()) {
            if score > best_score {
                best_score = score;
            }
            if depth == 0 {
                best_move = Some(mv);
            }
            if opts.alpha_beta {
                if alpha < best_score {
                    alpha = best_score;
                }
                if alpha >= beta {
                    cut = true;
                }
            }
        }
        i = i + 1;
    }
    proof {
        if !opts.alpha_beta {
            lemma_max_canonical(*b, children, depth as int, *opts);
        }
    }
    (best_score, best_move)
}

/// One minimizing node with the window `(alpha, beta)`.
#[verifier::rlimit(100)]
fn minimize(b: &Board, alpha: Value, mut beta: Value, depth: u8, opts: &Options) -> (r: (
    Value,
    Option<Move>,
))
    requires
        b.wf(),
        opts.max_depth >= 1,
        depth <= opts.max_depth,
    ensures
        -32767 <= r.0 <= 32767,
        opts.move_ordering != MoveOrdering::Rand ==> (r.0 as int, r.1) == spec_minimize(
            *b,
            alpha as int,
            beta as int,
            depth as int,
            *opts,
        ),
        r.1 is Some ==> depth == 0 && spec_moves_from_some(*b, r.1.unwrap()),
        depth == 0 && spec_generate_all(*b).len() > 0 ==> r.1 is Some,
        // Without pruning the score is the canonical value, however
        // the children were ordered.
        !opts.alpha_beta ==> r.0 as int == spec_minimize(
            *b,
            -32768,
            32767,
            depth as int,
            spec_no_ab(*opts),
        ).0,
    decreases opts.max_depth - depth, 0int,
{
    if depth == opts.max_depth {
        return (b.value(), None);
    }

    let mut bs: Vec<(Move, Board)> = b.generate_all();
    proof {
        lemma_generate_all_sound(*b);
    }
    move_ordering(&mut bs, -1, opts);
    proof {
        broadcast use vstd::seq_lib::group_to_multiset_ensures;

        lemma_perm_entries(spec_generate_all(*b), bs@);
        assert(bs@.len() == bs@.to_multiset().len());
        assert(spec_generate_all(*b).len() == spec_generate_all(*b).to_multiset().len());
        if opts.move_ordering != MoveOrdering::Rand {
            assert(bs@ == spec_children(*b, -1, *opts));
        }
    }

    let ghost children = bs@;
    let ghost beta0 = beta as int;

    let mut best_score: Value = 32766;
    let mut best_move: Option<Move> = None;
    let mut i: usize = 0;
    let mut cut: bool = false;
    while !cut && i < bs.len()
        invariant
            b.wf(),
            opts.max_depth >= 1,
            depth < opts.max_depth,
            -32767 <= best_score <= 32767,
            bs@ == children,
            i <= children.len(),
            children.len() == spec_generate_all(*b).len(),
            forall|j: int|
                0 <= j < spec_generate_all(*b).len() ==> spec_move_ok(
                    *b,
                    (#[trigger] spec_generate_all(*b)[j]).0,
                ) && spec_generate_all(*b)[j].1.wf(),
            forall|j: int|
                0 <= j < children.len() ==> spec_moves_from(
                    spec_generate_all(*b),
                    #[trigger] children[j],
                ),
            forall|j: int|
                0 <= j < spec_generate_all(*b).len() ==> spec_entry_sound(
                    *b,
                    #[trigger] spec_generate_all(*b)[j],
                ),
            best_move is Some ==> depth == 0 && spec_moves_from_some(*b, best_move.unwrap()),
            depth == 0 && i > 0 && !cut ==> best_move is Some,
            cut ==> best_move is Some || depth != 0,
            cut ==> opts.alpha_beta,
            !opts.alpha_beta ==> best_score as int == spec_imin(
                32766,
                spec_pre_min(children, i as int, depth as int, *opts),
            ),
            opts.move_ordering != MoveOrdering::Rand && !cut ==> spec_minimize(
                *b,
                alpha as int,
                beta0,
                depth as int,
                *opts,
            ) == spec_min_loop(
                children,
                i as int,
                alpha as int,
                beta as int,
                best_score as int,
                best_move,
                depth as int,
                *opts,
            ),
            opts.move_ordering != MoveOrdering::Rand && cut ==> spec_minimize(
                *b,
                alpha as int,
                beta0,
                depth as int,
                *opts,
            ) == (best_score as int, best_move),
        decreases children.len() - i, (if cut { 0int } else { 1int }),
    {
        let mv = bs[i].0;
        let child = bs[i].1;
        proof {
            assert(spec_moves_from(spec_generate_all(*b), children[i as int]));
            let k = choose|k: int|
                0 <= k < spec_generate_all(*b).len() && spec_generate_all(*b)[k] == children[i as int];
            assert(spec_entry_sound(*b, spec_generate_all(*b)[k]));
            assert(child.wf());
        }
        let sub = maximize(&child, alpha, beta, depth + 1, opts);
        let score: Value = sub.0;
        proof {
            if !opts.alpha_beta {
                assert(spec_no_ab(spec_no_ab(*opts)) == spec_no_ab(*opts));
                assert(score as int == spec_cv_min(children[i as int], depth as int, *opts));
                assert(spec_pre_min(children, i as int + 1, depth as int, *opts) == spec_imin(
                    spec_pre_min(children, i as int, depth as int, *opts),
                    spec_cv_min(children[i as int], depth as int, *opts),
                ));
            }
        }
        if score < best_score || (depth == 0 && best_move.is_none()) {
            if score < best_score {
                best_score = score;
            }
            if depth == 0 {
                best_move = Some(mv);
            }
            if opts.alpha_beta {
                if best_score < beta {
                    beta = best_score;
                }
                if beta <= alpha {
                    cut = true;
                }
            }
        }
        i = i + 1;
    }
    proof {
        if !opts.alpha_beta {
            lemma_min_canonical(*b, children, depth as int, *opts);
        }
    }
    (best_score, best_move)
}

/// The minimax driver: searches the position at the configured depth
/// and returns the score, from White's perspective, of the best move
/// together with that move. The position must have a legal move.
/// Without pruning the score never depends on the move ordering.
pub fn minimax(b: &Board, opts: &Options) -> (r: (Value, Move))
    requires
        b.wf(),
        opts.max_depth >= 1,
        spec_generate_all(*b).len() > 0,
    ensures
        opts.move_ordering != MoveOrdering::Rand ==> (r.0 as int, Some(r.1))
            == spec_minimax_root(*b, *opts),
        !opts.alpha_beta ==> r.0 as int == spec_minimax_root(*b, *opts).0,
        spec_moves_from_some(*b, r.1),
{
    match b.player {
        Color::Black => {
            let (v, m) = minimize(b, -32768, 32767, 0, opts);
            (v, m.unwrap())
        },
        Color::White => {
            let (v, m) = maximize(b, -32768, 32767, 0, opts);
            (v, m.unwrap())
        },
    }
}

/// The smaller of two mathematical integers.
pub open spec fn spec_imin(a: int, b: int) -> int {
    if a <= b {
        a
    } else {
        b
    }
}

/// The canonical (full-window, unpruned) value of a maximizing
/// node's child, and of a minimizing node's child.
pub open spec fn spec_cv_max(e: (Move, Board), depth: int, o: Options) -> int {
    spec_minimize(e.1, -32768, 32767, depth + 1, spec_no_ab(o)).0
}

pub open spec fn spec_cv_min(e: (Move, Board), depth: int, o: Options) -> int {
    spec_maximize(e.1, -32768, 32767, depth + 1, spec_no_ab(o)).0
}

/// Without pruning, the window never influences either search.
proof fn lemma_mm_free_max(b: Board, a1: int, b1: int, a2: int, b2: int, depth: int, o: Options)
    requires
        !o.alpha_beta,
    ensures
        spec_maximize(b, a1, b1, depth, o) == spec_maximize(b, a2, b2, depth, o),
    decreases o.max_depth - depth, 1int, 0int,
{
    if depth < o.max_depth as int {
        lemma_mm_free_max_loop(spec_children(b, 1, o), 0, a1, b1, a2, b2, -32767, None, depth, o);
    }
}

proof fn lemma_mm_free_min(b: Board, a1: int, b1: int, a2: int, b2: int, depth: int, o: Options)
    requires
        !o.alpha_beta,
    ensures
        spec_minimize(b, a1, b1, depth, o) == spec_minimize(b, a2, b2, depth, o),
    decreases o.max_depth - depth, 1int, 0int,
{
    if depth < o.max_depth as int {
        lemma_mm_free_min_loop(spec_children(b, -1, o), 0, a1, b1, a2, b2, 32766, None, depth, o);
    }
}

proof fn lemma_mm_free_max_loop(
    children: Seq<(Move, Board)>,
    i: int,
    a1: int,
    b1: int,
    a2: int,
    b2: int,
    best: int,
    bm: Option<Move>,
    depth: int,
    o: Options,
)
    requires
        !o.alpha_beta,
    ensures
        spec_max_loop(children, i, a1, b1, best, bm, depth, o) == spec_max_loop(
            children,
            i,
            a2,
            b2,
            best,
            bm,
            depth,
            o,
        ),
    decreases o.max_depth - depth, 0int, children.len() - i,
{
    if !(i < 0 || i >= children.len() || depth >= o.max_depth as int) {
        lemma_mm_free_min(children[i].1, a1, b1, a2, b2, depth + 1, o);
        let score = spec_minimize(children[i].1, a1, b1, depth + 1, o).0;
        let cond = score > best || (depth == 0 && bm is None);
        let best2 = if cond && score > best {
            score
        } else {
            best
        };
        let bm2 = if cond && depth == 0 {
            Some(children[i].0)
        } else {
            bm
        };
        lemma_mm_free_max_loop(children, i + 1, a1, b1, a2, b2, best2, bm2, depth, o);
    }
}

proof fn lemma_mm_free_min_loop(
    children: Seq<(Move, Board)>,
    i: int,
    a1: int,
    b1: int,
    a2: int,
    b2: int,
    best: int,
    bm: Option<Move>,
    depth: int,
    o: Options,
)
    requires
        !o.alpha_beta,
    ensures
        spec_min_loop(children, i, a1, b1, best, bm, depth, o) == spec_min_loop(
            children,
            i,
            a2,
            b2,
            best,
            bm,
            depth,
            o,
        ),
    decreases o.max_depth - depth, 0int, children.len() - i,
{
    if !(i < 0 || i >= children.len() || depth >= o.max_depth as int) {
        lemma_mm_free_max(children[i].1, a1, b1, a2, b2, depth + 1, o);
        let score = spec_maximize(children[i].1, a1, b1, depth + 1, o).0;
        let cond = score < best || (depth == 0 && bm is None);
        let best2 = if cond && score < best {
            score
        } else {
            best
        };
        let bm2 = if cond && depth == 0 {
            Some(children[i].0)
        } else {
            bm
        };
        lemma_mm_free_min_loop(children, i + 1, a1, b1, a2, b2, best2, bm2, depth, o);
    }
}

/// Prefix folds of the canonical child values.
pub open spec fn spec_pre_max(children: Seq<(Move, Board)>, i: int, depth: int, o: Options) -> int
    decreases i,
{
    if i <= 0 {
        -32767
    } else {
        spec_imax(spec_pre_max(children, i - 1, depth, o), spec_cv_max(children[i - 1], depth, o))
    }
}

pub open spec fn spec_pre_min(children: Seq<(Move, Board)>, i: int, depth: int, o: Options) -> int
    decreases i,
{
    if i <= 0 {
        32766
    } else {
        spec_imin(spec_pre_min(children, i - 1, depth, o), spec_cv_min(children[i - 1], depth, o))
    }
}

/// Without pruning, each loop computes its prefix fold exactly.
proof fn lemma_mm_max_is_fold(
    children: Seq<(Move, Board)>,
    i: int,
    alpha: int,
    beta: int,
    best: int,
    bm: Option<Move>,
    depth: int,
    o: Options,
)
    requires
        !o.alpha_beta,
        0 <= i <= children.len(),
        depth < o.max_depth as int,
        -32767 <= best,
    ensures
        spec_max_loop(children, i, alpha, beta, best, bm, depth, o).0 == spec_imax(
            best,
            spec_sfx_max(children, i, depth, o),
        ),
    decreases children.len() - i,
{
    if i < children.len() {
        lemma_mm_free_min(children[i].1, alpha, beta, -32768, 32767, depth + 1, o);
        assert(spec_no_ab(o) == o);
        lemma_mm_bounds_min(children[i].1, alpha, beta, depth + 1, o);
        let score = spec_minimize(children[i].1, alpha, beta, depth + 1, o).0;
        let cond = score > best || (depth == 0 && bm is None);
        let best2 = if cond && score > best {
            score
        } else {
            best
        };
        let bm2 = if cond && depth == 0 {
            Some(children[i].0)
        } else {
            bm
        };
        lemma_mm_max_is_fold(children, i + 1, alpha, beta, best2, bm2, depth, o);
    }
}

proof fn lemma_mm_min_is_fold(
    children: Seq<(Move, Board)>,
    i: int,
    alpha: int,
    beta: int,
    best: int,
    bm: Option<Move>,
    depth: int,
    o: Options,
)
    requires
        !o.alpha_beta,
        0 <= i <= children.len(),
        depth < o.max_depth as int,
        best <= 32766,
    ensures
        spec_min_loop(children, i, alpha, beta, best, bm, depth, o).0 == spec_imin(
            best,
            spec_sfx_min(children, i, depth, o),
        ),
    decreases children.len() - i,
{
    if i < children.len() {
        lemma_mm_free_max(children[i].1, alpha, beta, -32768, 32767, depth + 1, o);
        assert(spec_no_ab(o) == o);
        lemma_mm_bounds_max(children[i].1, alpha, beta, depth + 1, o);
        let score = spec_maximize(children[i].1, alpha, beta, depth + 1, o).0;
        let cond = score < best || (depth == 0 && bm is None);
        let best2 = if cond && score < best {
            score
        } else {
            best
        };
        let bm2 = if cond && depth == 0 {
            Some(children[i].0)
        } else {
            bm
        };
        lemma_mm_min_is_fold(children, i + 1, alpha, beta, best2, bm2, depth, o);
    }
}

/// Suffix folds of the canonical child values.
pub open spec fn spec_sfx_max(children: Seq<(Move, Board)>, i: int, depth: int, o: Options) -> int
    decreases children.len() - i,
{
    if i < 0 || i >= children.len() {
        -32767
    } else {
        spec_imax(spec_cv_max(children[i], depth, o), spec_sfx_max(children, i + 1, depth, o))
    }
}

pub open spec fn spec_sfx_min(children: Seq<(Move, Board)>, i: int, depth: int, o: Options) -> int
    decreases children.len() - i,
{
    if i < 0 || i >= children.len() {
        32766
    } else {
        spec_imin(spec_cv_min(children[i], depth, o), spec_sfx_min(children, i + 1, depth, o))
    }
}

proof fn lemma_pre_sfx_max(children: Seq<(Move, Board)>, i: int, depth: int, o: Options)
    requires
        0 <= i <= children.len(),
    ensures
        spec_imax(spec_pre_max(children, i, depth, o), spec_sfx_max(children, i, depth, o))
            == spec_imax(-32767, spec_sfx_max(children, 0, depth, o)),
    decreases i,
{
    if i > 0 {
        lemma_pre_sfx_max(children, i - 1, depth, o);
        assert(spec_sfx_max(children, i - 1, depth, o) == spec_imax(
            spec_cv_max(children[i - 1], depth, o),
            spec_sfx_max(children, i, depth, o),
        ));
    }
}

proof fn lemma_pre_sfx_min(children: Seq<(Move, Board)>, i: int, depth: int, o: Options)
    requires
        0 <= i <= children.len(),
    ensures
        spec_imin(spec_pre_min(children, i, depth, o), spec_sfx_min(children, i, depth, o))
            == spec_imin(32766, spec_sfx_min(children, 0, depth, o)),
    decreases i,
{
    if i > 0 {
        lemma_pre_sfx_min(children, i - 1, depth, o);
        assert(spec_sfx_min(children, i - 1, depth, o) == spec_imin(
            spec_cv_min(children[i - 1], depth, o),
            spec_sfx_min(children, i, depth, o),
        ));
    }
}

/// The suffix folds do not care about the order of the entries.
proof fn lemma_sfx_max_ge(children: Seq<(Move, Board)>, i: int, j: int, depth: int, o: Options)
    requires
        0 <= i <= j < children.len(),
    ensures
        spec_sfx_max(children, i, depth, o) >= spec_cv_max(children[j], depth, o),
    decreases j - i,
{
    if i < j {
        lemma_sfx_max_ge(children, i + 1, j, depth, o);
    }
}

proof fn lemma_sfx_max_attained(children: Seq<(Move, Board)>, i: int, depth: int, o: Options)
    requires
        0 <= i,
    ensures
        spec_sfx_max(children, i, depth, o) == -32767 || exists|j: int|
            i <= j < children.len() && spec_sfx_max(children, i, depth, o) == spec_cv_max(
                #[trigger] children[j],
                depth,
                o,
            ),
    decreases children.len() - i,
{
    if i < children.len() {
        lemma_sfx_max_attained(children, i + 1, depth, o);
        if spec_sfx_max(children, i, depth, o) == spec_cv_max(children[i], depth, o) {
            assert(exists|j: int|
                i <= j < children.len() && spec_sfx_max(children, i, depth, o) == spec_cv_max(
                    #[trigger] children[j],
                    depth,
                    o,
                )) by {
                assert(spec_sfx_max(children, i, depth, o) == spec_cv_max(children[i], depth, o));
            }
        }
    }
}

proof fn lemma_sfx_max_perm(
    s1: Seq<(Move, Board)>,
    s2: Seq<(Move, Board)>,
    depth: int,
    o: Options,
)
    requires
        s1.to_multiset() == s2.to_multiset(),
    ensures
        spec_sfx_max(s1, 0, depth, o) == spec_sfx_max(s2, 0, depth, o),
{
    lemma_sfx_max_le(s1, s2, depth, o);
    lemma_sfx_max_le(s2, s1, depth, o);
}

proof fn lemma_sfx_max_le(s1: Seq<(Move, Board)>, s2: Seq<(Move, Board)>, depth: int, o: Options)
    requires
        s1.to_multiset() == s2.to_multiset(),
    ensures
        spec_sfx_max(s1, 0, depth, o) <= spec_sfx_max(s2, 0, depth, o),
{
    broadcast use vstd::seq_lib::group_to_multiset_ensures;

    lemma_sfx_max_attained(s1, 0, depth, o);
    lemma_sfx_max_base(s2, 0, depth, o);
    let v1 = spec_sfx_max(s1, 0, depth, o);
    if v1 != -32767 {
        let j = choose|j: int| 0 <= j < s1.len() && v1 == spec_cv_max(#[trigger] s1[j], depth, o);
        assert(s1.contains(s1[j]));
        assert(s1.to_multiset().count(s1[j]) > 0);
        assert(s2.to_multiset().count(s1[j]) > 0);
        assert(s2.contains(s1[j]));
        let k = choose|k: int| 0 <= k < s2.len() && s2[k] == s1[j];
        lemma_sfx_max_ge(s2, 0, k, depth, o);
    }
}

proof fn lemma_sfx_max_base(children: Seq<(Move, Board)>, i: int, depth: int, o: Options)
    ensures
        spec_sfx_max(children, i, depth, o) >= -32767,
    decreases children.len() - i,
{
    if 0 <= i && i < children.len() {
        lemma_sfx_max_base(children, i + 1, depth, o);
    }
}

proof fn lemma_sfx_min_le_elem(children: Seq<(Move, Board)>, i: int, j: int, depth: int, o: Options)
    requires
        0 <= i <= j < children.len(),
    ensures
        spec_sfx_min(children, i, depth, o) <= spec_cv_min(children[j], depth, o),
    decreases j - i,
{
    if i < j {
        lemma_sfx_min_le_elem(children, i + 1, j, depth, o);
    }
}

proof fn lemma_sfx_min_attained(children: Seq<(Move, Board)>, i: int, depth: int, o: Options)
    requires
        0 <= i,
    ensures
        spec_sfx_min(children, i, depth, o) == 32766 || exists|j: int|
            i <= j < children.len() && spec_sfx_min(children, i, depth, o) == spec_cv_min(
                #[trigger] children[j],
                depth,
                o,
            ),
    decreases children.len() - i,
{
    if i < children.len() {
        lemma_sfx_min_attained(children, i + 1, depth, o);
        if spec_sfx_min(children, i, depth, o) == spec_cv_min(children[i], depth, o) {
            assert(exists|j: int|
                i <= j < children.len() && spec_sfx_min(children, i, depth, o) == spec_cv_min(
                    #[trigger] children[j],
                    depth,
                    o,
                )) by {
                assert(spec_sfx_min(children, i, depth, o) == spec_cv_min(children[i], depth, o));
            }
        }
    }
}

proof fn lemma_sfx_min_perm(
    s1: Seq<(Move, Board)>,
    s2: Seq<(Move, Board)>,
    depth: int,
    o: Options,
)
    requires
        s1.to_multiset() == s2.to_multiset(),
    ensures
        spec_sfx_min(s1, 0, depth, o) == spec_sfx_min(s2, 0, depth, o),
{
    lemma_sfx_min_ge_other(s1, s2, depth, o);
    lemma_sfx_min_ge_other(s2, s1, depth, o);
}

proof fn lemma_sfx_min_ge_other(
    s1: Seq<(Move, Board)>,
    s2: Seq<(Move, Board)>,
    depth: int,
    o: Options,
)
    requires
        s1.to_multiset() == s2.to_multiset(),
    ensures
        spec_sfx_min(s1, 0, depth, o) >= spec_sfx_min(s2, 0, depth, o),
{
    broadcast use vstd::seq_lib::group_to_multiset_ensures;

    lemma_sfx_min_attained(s1, 0, depth, o);
    lemma_sfx_min_base(s2, 0, depth, o);
    let v1 = spec_sfx_min(s1, 0, depth, o);
    if v1 != 32766 {
        let j = choose|j: int| 0 <= j < s1.len() && v1 == spec_cv_min(#[trigger] s1[j], depth, o);
        assert(s1.contains(s1[j]));
        assert(s1.to_multiset().count(s1[j]) > 0);
        assert(s2.to_multiset().count(s1[j]) > 0);
        assert(s2.contains(s1[j]));
        let k = choose|k: int| 0 <= k < s2.len() && s2[k] == s1[j];
        lemma_sfx_min_le_elem(s2, 0, k, depth, o);
    }
}

proof fn lemma_sfx_min_base(children: Seq<(Move, Board)>, i: int, depth: int, o: Options)
    ensures
        spec_sfx_min(children, i, depth, o) <= 32766,
    decreases children.len() - i,
{
    if 0 <= i && i < children.len() {
        lemma_sfx_min_base(children, i + 1, depth, o);
    }
}

/// Both searches stay within the representable score band.
proof fn lemma_mm_bounds_max(b: Board, alpha: int, beta: int, depth: int, o: Options)
    ensures
        -32767 <= spec_maximize(b, alpha, beta, depth, o).0 <= 32766,
    decreases o.max_depth - depth, 1int, 0int,
{
    if depth < o.max_depth as int {
        lemma_mm_bounds_max_loop(spec_children(b, 1, o), 0, alpha, beta, -32767, None, depth, o);
    }
}

proof fn lemma_mm_bounds_min(b: Board, alpha: int, beta: int, depth: int, o: Options)
    ensures
        -32767 <= spec_minimize(b, alpha, beta, depth, o).0 <= 32766,
    decreases o.max_depth - depth, 1int, 0int,
{
    if depth < o.max_depth as int {
        lemma_mm_bounds_min_loop(spec_children(b, -1, o), 0, alpha, beta, 32766, None, depth, o);
    }
}

proof fn lemma_mm_bounds_max_loop(
    children: Seq<(Move, Board)>,
    i: int,
    alpha: int,
    beta: int,
    best: int,
    bm: Option<Move>,
    depth: int,
    o: Options,
)
    requires
        -32767 <= best <= 32766,
    ensures
        -32767 <= spec_max_loop(children, i, alpha, beta, best, bm, depth, o).0 <= 32766,
    decreases o.max_depth - depth, 0int, children.len() - i,
{
    if !(i < 0 || i >= children.len() || depth >= o.max_depth as int) {
        lemma_mm_bounds_min(children[i].1, alpha, beta, depth + 1, o);
        let score = spec_minimize(children[i].1, alpha, beta, depth + 1, o).0;
        let cond = score > best || (depth == 0 && bm is None);
        let best2 = if cond && score > best {
            score
        } else {
            best
        };
        let bm2 = if cond && depth == 0 {
            Some(children[i].0)
        } else {
            bm
        };
        let alpha2 = if cond && o.alpha_beta && alpha < best2 {
            best2
        } else {
            alpha
        };
        if cond && o.alpha_beta && alpha2 >= beta {
        } else {
            lemma_mm_bounds_max_loop(children, i + 1, alpha2, beta, best2, bm2, depth, o);
        }
    }
}

proof fn lemma_mm_bounds_min_loop(
    children: Seq<(Move, Board)>,
    i: int,
    alpha: int,
    beta: int,
    best: int,
    bm: Option<Move>,
    depth: int,
    o: Options,
)
    requires
        -32767 <= best <= 32766,
    ensures
        -32767 <= spec_min_loop(children, i, alpha, beta, best, bm, depth, o).0 <= 32766,
    decreases o.max_depth - depth, 0int, children.len() - i,
{
    if !(i < 0 || i >= children.len() || depth >= o.max_depth as int) {
        lemma_mm_bounds_max(children[i].1, alpha, beta, depth + 1, o);
        let score = spec_maximize(children[i].1, alpha, beta, depth + 1, o).0;
        let cond = score < best || (depth == 0 && bm is None);
        let best2 = if cond && score < best {
            score
        } else {
            best
        };
        let bm2 = if cond && depth == 0 {
            Some(children[i].0)
        } else {
            bm
        };
        let beta2 = if cond && o.alpha_beta && best2 < beta {
            best2
        } else {
            beta
        };
        if cond && o.alpha_beta && beta2 <= alpha {
        } else {
            lemma_mm_bounds_min_loop(children, i + 1, alpha, beta2, best2, bm2, depth, o);
        }
    }
}

/// The prefix fold over any reordering of the generated children is
/// the canonical unpruned value of the node.
proof fn lemma_max_canonical(b: Board, children: Seq<(Move, Board)>, depth: int, o: Options)
    requires
        !o.alpha_beta,
        depth < o.max_depth as int,
        children.to_multiset() == spec_generate_all(b).to_multiset(),
    ensures
        spec_imax(-32767, spec_pre_max(children, children.len() as int, depth, o))
            == spec_maximize(b, -32768, 32767, depth, spec_no_ab(o)).0,
{
    assert(spec_no_ab(o) == o);
    lemma_pre_sfx_max(children, children.len() as int, depth, o);
    assert(spec_sfx_max(children, children.len() as int, depth, o) == -32767);
    let ch = spec_children(b, 1, o);
    assert(ch.to_multiset() == spec_generate_all(b).to_multiset()) by {
        if o.move_ordering == MoveOrdering::Eval {
            crate::ordering::lemma_eval_order_multiset(spec_generate_all(b), 1);
        }
    }
    lemma_sfx_max_perm(children, ch, depth, o);
    lemma_mm_max_is_fold(ch, 0, -32768, 32767, -32767, None, depth, o);
}

proof fn lemma_min_canonical(b: Board, children: Seq<(Move, Board)>, depth: int, o: Options)
    requires
        !o.alpha_beta,
        depth < o.max_depth as int,
        children.to_multiset() == spec_generate_all(b).to_multiset(),
    ensures
        spec_imin(32766, spec_pre_min(children, children.len() as int, depth, o))
            == spec_minimize(b, -32768, 32767, depth, spec_no_ab(o)).0,
{
    assert(spec_no_ab(o) == o);
    lemma_pre_sfx_min(children, children.len() as int, depth, o);
    assert(spec_sfx_min(children, children.len() as int, depth, o) == 32766);
    let ch = spec_children(b, -1, o);
    assert(ch.to_multiset() == spec_generate_all(b).to_multiset()) by {
        if o.move_ordering == MoveOrdering::Eval {
            crate::ordering::lemma_eval_order_multiset(spec_generate_all(b), -1);
        }
    }
    lemma_sfx_min_perm(children, ch, depth, o);
    lemma_mm_min_is_fold(ch, 0, -32768, 32767, 32766, None, depth, o);
}

} // verus!
