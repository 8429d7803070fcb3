//! Principal-variation (scout) search: each child after the first is
//! probed with a null window; a probe that beats the current lower
//! bound is re-searched with the full window unless the window was
//! already full, the horizon is near, or the probe already failed
//! high.

use vstd::prelude::*;

use crate::board::{spec_move_ok, Board, Color, Move};
use crate::evaluation::{spec_board_value, Valuable, Value};
use crate::generation::{lemma_generate_all_sound, spec_entry_sound, spec_generate_all};
use crate::misc::{MoveOrdering, Options};
use crate::negamax::{lemma_perm_entries, spec_children, spec_moves_from, spec_moves_from_some};
use crate::ordering::move_ordering;

verus! {

/// The larger of two mathematical integers.
pub open spec fn spec_max(a: int, b: int) -> int {
    if a >= b {
        a
    } else {
        b
    }
}

/// The scout loop over the children from index `i` on. Each child is
/// probed with the window `(-upper, -max(alpha, lower))`; a probe
/// beating the lower bound is kept, or re-searched with `(-beta,
/// -score)` when the probe window was narrow, the horizon is not
/// within two plies, and the score stays below beta. The loop cuts
/// once the lower bound reaches beta, and otherwise narrows `upper`
/// to a null window above `max(alpha, lower)`.
pub open spec fn spec_ns_loop(
    children: Seq<(Move, Board)>,
    i: int,
    alpha: int,
    beta: int,
    lower: int,
    upper: int,
    best_move: Option<Move>,
    depth: int,
    sign: int,
    opts: Options,
) -> (int, Option<Move>)
    decreases opts.max_depth - depth, 0int, children.len() - i,
{
    if i < 0 || i >= children.len() || depth >= opts.max_depth as int {
        (lower, best_move)
    } else {
        let score = -spec_ns(
            children[i].1,
            -upper,
            -spec_max(alpha, lower),
            depth + 1,
            -sign,
            opts,
        ).0;
        let cond = score > lower || (depth == 0 && best_move is None);
        let bm2 = if cond && depth == 0 {
            Some(children[i].0)
        } else {
            best_move
        };
        let lower2 = if score > lower {
            if upper == beta || depth + 3 > opts.max_depth as int || score >= beta {
                score
            } else {
                -spec_ns(children[i].1, -beta, -score, depth + 1, -sign, opts).0
            }
        } else {
            lower
        };
        if lower2 >= beta {
            (lower2, bm2)
        } else {
            spec_ns_loop(
                children,
                i + 1,
                alpha,
                beta,
                lower2,
                spec_max(alpha, lower2) + 1,
                bm2,
                depth,
                sign,
                opts,
            )
        }
    }
}

/// A scout node: at the horizon the static evaluation seen from the
/// side to move, else the scout loop over the ordered children.
pub open spec fn spec_ns(b: Board, alpha: int, beta: int, depth: int, sign: int, opts: Options) -> (
    int,
    Option<Move>,
)
    decreases opts.max_depth - depth, 1int, 0int,
{
    if depth >= opts.max_depth as int {
        (sign * spec_board_value(b), None)
    } else {
        spec_ns_loop(spec_children(b, sign, opts), 0, alpha, beta, -32767, beta, None, depth, sign, opts)
    }
}

/// The root result: the search runs for the side to move with the
/// widest negatable window, and a Black score is negated back to
/// White's perspective; a position without legal moves yields none.
pub open spec fn spec_negascout_root(b: Board, opts: Options) -> Option<(int, Option<Move>)> {
    if spec_generate_all(b).len() == 0 {
        None
    } else {
        match b.player {
            Color::Black => {
                let (v, m) = spec_ns(b, -32767, 32766, 0, -1, opts);
                Some((-v, m))
            },
            Color::White => Some(spec_ns(b, -32767, 32766, 0, 1, opts)),
        }
    }
}

/// One unfolding of the scout loop, stated over the already-computed
/// probe score, re-search result, bound and move updates.
proof fn lemma_ns_step(
    children: Seq<(Move, Board)>,
    i: int,
    alpha: int,
    beta: int,
    lower: int,
    upper: int,
    bm: Option<Move>,
    depth: int,
    sign: int,
    opts: Options,
    score: int,
    lower2: int,
    bm2: Option<Move>,
)
    requires
        0 <= i < children.len(),
        depth < opts.max_depth as int,
        score == -spec_ns(children[i].1, -upper, -spec_max(alpha, lower), depth + 1, -sign, opts).0,
        bm2 == (if (score > lower || (depth == 0 && bm is None)) && depth == 0 {
            Some(children[i].0)
        } else {
            bm
        }),
        lower2 == (if score > lower {
            if upper == beta || depth + 3 > opts.max_depth as int || score >= beta {
                score
            } else {
                -spec_ns(children[i].1, -beta, -score, depth + 1, -sign, opts).0
            }
        } else {
            lower
        }),
    ensures
        spec_ns_loop(children, i, alpha, beta, lower, upper, bm, depth, sign, opts) == (if lower2
            >= beta {
            (lower2, bm2)
        } else {
            spec_ns_loop(
                children,
                i + 1,
                alpha,
                beta,
                lower2,
                spec_max(alpha, lower2) + 1,
                bm2,
                depth,
                sign,
                opts,
            )
        }),
{
}

/// One scout node with the window `(alpha, beta)`; `sign` is +1 when
/// this ply maximizes for White.
#[verifier::rlimit(100)]
fn negascout_search(b: &Board, alpha: Value, beta: Value, depth: u8, sign: i8, opts: &Options) -> (r:
    (Value, Option<Move>))
    requires
        b.wf(),
        opts.max_depth >= 1,
        depth <= opts.max_depth,
        sign == 1 || sign == -1,
        -32767 <= alpha <= 32766,
        alpha < beta,
        beta <= 32767,
    ensures
        -32767 <= r.0 <= 32767,
        opts.move_ordering != MoveOrdering::Rand ==> (r.0 as int, r.1) == spec_ns(
            *b,
            alpha as int,
            beta as int,
            depth as int,
            sign as int,
            *opts,
        ),
        r.1 is Some ==> depth == 0 && spec_moves_from_some(*b, r.1.unwrap()),
        depth == 0 && spec_generate_all(*b).len() > 0 ==> r.1 is Some,
    decreases opts.max_depth - depth,
{
    if depth == opts.max_depth {
        let v = b.value();
        let lv: Value = if sign == 1 {
            v
        } else {
            -v
        };
        proof {
            assert(lv as int == sign as int * spec_board_value(*b)) by (nonlinear_arith)
                requires
                    sign == 1 || sign == -1,
                    v as int == spec_board_value(*b),
                    lv as int == (if sign == 1 {
                        v as int
                    } else {
                        -(v as int)
                    }),
            ;
        }
        return (lv, None);
    }

    let mut bs: Vec<(Move, Board)> = b.generate_all();
    proof {
        lemma_generate_all_sound(*b);
    }
    move_ordering(&mut bs, sign, opts);
    proof {
        broadcast use vstd::seq_lib::group_to_multiset_ensures;

        lemma_perm_entries(spec_generate_all(*b), bs@);
        assert(bs@.len() == bs@.to_multiset().len());
        assert(spec_generate_all(*b).len() == spec_generate_all(*b).to_multiset().len());
        if opts.move_ordering != MoveOrdering::Rand {
            assert(bs@ == spec_children(*b, sign as int, *opts));
        }
    }

    let ghost children = bs@;

    let mut lower: Value = -32767;
    let mut upper: Value = beta;
    let mut best_move: Option<Move> = None;
    let mut i: usize = 0;
    let mut cut: bool = false;
    while !cut && i < bs.len()
        invariant
            b.wf(),
            opts.max_depth >= 1,
            depth < opts.max_depth,
            sign == 1 || sign == -1,
            -32767 <= alpha <= 32766,
            alpha < beta,
            beta <= 32767,
            -32767 <= lower <= 32767,
            !cut ==> upper as int > spec_max(alpha as int, lower as int),
            upper <= 32767,
            !cut ==> lower < beta,
            bs@ == children,
            i <= children.len(),
            children.len() == spec_generate_all(*b).len(),
            forall|j: int|
                0 <= j < spec_generate_all(*b).len() ==> spec_move_ok(
                    *b,
                    (#[trigger] spec_generate_all(*b)[j]).0,
                ) && spec_generate_all(*b)[j].1.wf(),
            forall|j: int|
                0 <= j < children.len() ==> spec_moves_from(
                    spec_generate_all(*b),
                    #[trigger] children[j],
                ),
            forall|j: int|
                0 <= j < spec_generate_all(*b).len() ==> spec_entry_sound(
                    *b,
                    #[trigger] spec_generate_all(*b)[j],
                ),
            best_move is Some ==> depth == 0 && spec_moves_from_some(*b, best_move.unwrap()),
            depth == 0 && i > 0 && !cut ==> best_move is Some,
            cut ==> best_move is Some || depth != 0,
            opts.move_ordering != MoveOrdering::Rand && !cut ==> spec_ns(
                *b,
                alpha as int,
                beta as int,
                depth as int,
                sign as int,
                *opts,
            ) == spec_ns_loop(
                children,
                i as int,
                alpha as int,
                beta as int,
                lower as int,
                upper as int,
                best_move,
                depth as int,
                sign as int,
                *opts,
            ),
            opts.move_ordering != MoveOrdering::Rand && cut ==> spec_ns(
                *b,
                alpha as int,
                beta as int,
                depth as int,
                sign as int,
                *opts,
            ) == (lower as int, best_move),
        decreases children.len() - i, (if cut { 0int } else { 1int }),
    {
        let ghost i0 = i as int;
        let ghost l0 = lower as int;
        let ghost u0 = upper as int;
        let ghost bm0 = best_move;
        let mv = bs[i].0;
        let child = bs[i].1;
        proof {
            assert(spec_moves_from(spec_generate_all(*b), children[i as int]));
            let k = choose|k: int|
                0 <= k < spec_generate_all(*b).len() && spec_generate_all(*b)[k] == children[i as int];
            assert(spec_entry_sound(*b, spec_generate_all(*b)[k]));
            assert(child.wf());
        }
        let floor: Value = if alpha >= lower {
            alpha
        } else {
            lower
        };
        proof {
            assert(floor as int == spec_max(alpha as int, l0));
        }
        let sub = negascout_search(&child, -upper, -floor, depth + 1, -sign, opts);
        let score: Value = -sub.0;
        if score > lower || (depth == 0 && best_move.is_none()) {
            if depth == 0 {
                best_move = Some(mv);
            }
            if score > lower {
                if upper == beta || (depth as usize) + 3 > (opts.max_depth as usize) || score
                    >= beta {
                    lower = score;
                } else {
                    let re = negascout_search(&child, -beta, -score, depth + 1, -sign, opts);
                    lower = -re.0;
                }
            }
        }
        proof {
            if opts.move_ordering != MoveOrdering::Rand {
                lemma_ns_step(
                    children,
                    i0,
                    alpha as int,
                    beta as int,
                    l0,
                    u0,
                    bm0,
                    depth as int,
                    sign as int,
                    *opts,
                    score as int,
                    lower as int,
                    best_move,
                );
            }
        }
        if lower >= beta {
            cut = true;
        } else {
            let floor2: Value = if alpha >= lower {
                alpha
            } else {
                lower
            };
            upper = floor2 + 1;
        }
        i = i + 1;
    }
    (lower, best_move)
}

/// The scout driver: searches the position at the configured depth and
/// returns the score, from White's perspective, of the best move
/// together with that move, or nothing when the side to move has no
/// legal move.
pub fn negascout(b: &Board, opts: &Options) -> (r: Option<(Value, Move)>)
    requires
        b.wf(),
        opts.max_depth >= 1,
    ensures
        r is Some <==> spec_generate_all(*b).len() > 0,
        opts.move_ordering != MoveOrdering::Rand ==> match r {
            Some((v, m)) => spec_negascout_root(*b, *opts) == Some((v as int, Some(m))),
            None => spec_negascout_root(*b, *opts) is None,
        },
        r matches Some((v, m)) ==> spec_moves_from_some(*b, m),
{
    match b.player {
        Color::Black => {
            let (v, m) = negascout_search(b, -32767, 32766, 0, -1, opts);
            match m {
                Some(mv) => Some((-v, mv)),
                None => {
                    proof {
                        if spec_generate_all(*b).len() > 0 {
                            assert(false);
                        }
                    }
                    None
                },
            }
        },
        Color::White => {
            let (v, m) = negascout_search(b, -32767, 32766, 0, 1, opts);
            match m {
                Some(mv) => Some((v, mv)),
                None => {
                    proof {
                        if spec_generate_all(*b).len() > 0 {
                            assert(false);
                        }
                    }
                    None
                },
            }
        },
    }
}

} // verus!
