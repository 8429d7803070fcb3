//! Fixed-depth negamax with optional alpha–beta pruning. The score is
//! always from the perspective of the side the current ply moves for;
//! the root driver converts it back to White's perspective.

use vstd::prelude::*;

use crate::board::{spec_move_ok, Board, Color, Move};
use crate::evaluation::{spec_board_value, Valuable, Value};
use crate::generation::{lemma_generate_all_sound, spec_entry_sound, spec_generate_all};
use crate::misc::{MoveOrdering, Options, SearchInfo};
use crate::ordering::{move_ordering, spec_eval_order};

verus! {

/// The children of a node, in the order a deterministic policy visits
/// them: the generated order, or sorted by evaluation.
pub open spec fn spec_children(b: Board, sign: int, opts: Options) -> Seq<(Move, Board)> {
    if opts.move_ordering == MoveOrdering::Eval {
        spec_eval_order(spec_generate_all(b), sign)
    } else {
        spec_generate_all(b)
    }
}

/// The negamax loop over the children from index `i` on: each child is
/// searched with the negated, swapped window; a better score replaces
/// the best and, at the root, the best move; with pruning the window
/// closes and may cut.
pub open spec fn spec_nm_loop(
    children: Seq<(Move, Board)>,
    i: int,
    alpha: int,
    beta: int,
    best: int,
    best_move: Option<Move>,
    depth: int,
    sign: int,
    opts: Options,
) -> (int, Option<Move>)
    decreases opts.max_depth - depth, 0int, children.len() - i,
{
    if i < 0 || i >= children.len() || depth >= opts.max_depth as int {
        (best, best_move)
    } else {
        let score = -spec_nm(children[i].1, -beta, -alpha, depth + 1, -sign, opts).0;
        let cond = score > best || (depth == 0 && best_move is None);
        let best2 = if cond && score > best {
            score
        } else {
            best
        };
        let bm2 = if cond && depth == 0 {
            Some(children[i].0)
        } else {
            best_move
        };
        let alpha2 = if cond && opts.alpha_beta && alpha < best2 {
            best2
        } else {
            alpha
        };
        if cond && opts.alpha_beta && alpha2 >= beta {
            (best2, bm2)
        } else {
            spec_nm_loop(children, i + 1, alpha2, beta, best2, bm2, depth, sign, opts)
        }
    }
}

/// Negamax at one node: at the horizon the static evaluation seen from
/// the side to move, else the loop over the ordered children, starting
/// from the smallest representable score.
pub open spec fn spec_nm(b: Board, alpha: int, beta: int, depth: int, sign: int, opts: Options) -> (
    int,
    Option<Move>,
)
    decreases opts.max_depth - depth, 1int, 0int,
{
    if depth >= opts.max_depth as int {
        (sign * spec_board_value(b), None)
    } else {
        spec_nm_loop(
            spec_children(b, sign, opts),
            0,
            alpha,
            beta,
            -32767,
            None,
            depth,
            sign,
            opts,
        )
    }
}

/// The root result: the search runs for the side to move with the
/// widest negatable window, and a Black score is negated back to
/// White's perspective.
pub open spec fn spec_negamax_root(b: Board, opts: Options) -> (int, Option<Move>) {
    match b.player {
        Color::Black => {
            let (v, m) = spec_nm(b, -32767, 32766, 0, -1, opts);
            (-v, m)
        },
        Color::White => spec_nm(b, -32767, 32766, 0, 1, opts),
    }
}

/// The move of every entry of the sequence is the move of an entry of
/// the generated children.
pub open spec fn spec_moves_from(gen: Seq<(Move, Board)>, e: (Move, Board)) -> bool {
    exists|k: int| 0 <= k < gen.len() && gen[k] == e
}

/// A permutation keeps every entry an entry of the original.
pub(crate) proof fn lemma_perm_entries(gen: Seq<(Move, Board)>, bs: Seq<(Move, Board)>)
    requires
        bs.to_multiset() == gen.to_multiset(),
    ensures
        forall|i: int| 0 <= i < bs.len() ==> spec_moves_from(gen, #[trigger] bs[i]),
{
    broadcast use vstd::seq_lib::group_to_multiset_ensures;

    assert forall|i: int| 0 <= i < bs.len() implies spec_moves_from(gen, bs[i]) by {
        assert(bs.contains(bs[i]));
        assert(bs.to_multiset().count(bs[i]) > 0);
        assert(gen.to_multiset().count(bs[i]) > 0);
        assert(gen.contains(bs[i]));
        let k = choose|k: int| 0 <= k < gen.len() && gen[k] == bs[i];
    }
}

/// One negamax node: searches the ordered children with the window
/// `(alpha, beta)`; `sign` is +1 when this ply maximizes for White.
#[verifier::rlimit(100)]
fn negamax_search(
    b: &Board,
    mut alpha: Value,
    beta: Value,
    depth: u8,
    sign: i8,
    si: &mut SearchInfo,
    opts: &Options,
) -> (r: (Value, Option<Move>))
    requires
        b.wf(),
        opts.max_depth >= 1,
        depth <= opts.max_depth,
        sign == 1 || sign == -1,
        -32767 <= alpha <= 32767,
        -32767 <= beta <= 32767,
    ensures
        -32767 <= r.0 <= 32767,
        opts.move_ordering != MoveOrdering::Rand ==> (r.0 as int, r.1) == spec_nm(
            *b,
            alpha as int,
            beta as int,
            depth as int,
            sign as int,
            *opts,
        ),
        r.1 is Some ==> depth == 0 && spec_moves_from_some(*b, r.1.unwrap()),
        depth == 0 && spec_generate_all(*b).len() > 0 ==> r.1 is Some,
        spec_score_ok(r.0 as int),
        // Whatever the ordering, the score relates to the node's
        // canonical (unpruned, full-window) value: exact without
        // pruning, and a sound window bound with it.
        ({
            let v = spec_nm(*b, -32766, 32767, depth as int, sign as int, spec_no_ab(*opts)).0;
            &&& (!opts.alpha_beta ==> r.0 as int == v)
            &&& (opts.alpha_beta && alpha < beta ==> {
                &&& (r.0 <= alpha ==> v <= r.0 as int)
                &&& (alpha < r.0 && r.0 < beta ==> r.0 as int == v)
                &&& (r.0 >= beta ==> v >= r.0 as int)
            })
        }),
        // At the root window the score does not depend on how the
        // children were ordered, shuffled included.
        depth == 0 && alpha == -32767 && beta == 32766 ==> r.0 as int == spec_nm(
            *b,
            -32767,
            32766,
            0,
            sign as int,
            *opts,
        ).0,
    decreases opts.max_depth - depth,
{
    if depth == opts.max_depth {
        let v = b.value();
        let lv: Value = if sign == 1 {
            v
        } else {
            -v
        };
        proof {
            assert(lv as int == sign as int * spec_board_value(*b)) by (nonlinear_arith)
                requires
                    sign == 1 || sign == -1,
                    v as int == spec_board_value(*b),
                    lv as int == (if sign == 1 {
                        v as int
                    } else {
                        -(v as int)
                    }),
            ;
            assert(-30000 <= spec_board_value(*b) <= 30000);
            assert(spec_score_ok(lv as int));
        }
        return (lv, None);
    }
    if si.nodes < u64::MAX {
        si.nodes = si.nodes + 1;
    }

    let mut bs: Vec<(Move, Board)> = b.generate_all();
    proof {
        lemma_generate_all_sound(*b);
    }
    move_ordering(&mut bs, sign, opts);
    proof {
        broadcast use vstd::seq_lib::group_to_multiset_ensures;

        lemma_perm_entries(spec_generate_all(*b), bs@);
        assert(bs@.len() == bs@.to_multiset().len());
        assert(spec_generate_all(*b).len() == spec_generate_all(*b).to_multiset().len());
        if opts.move_ordering != MoveOrdering::Rand {
            assert(bs@ == spec_children(*b, sign as int, *opts));
        }
    }

    let ghost children = bs@;
    let ghost alpha0 = alpha as int;

    let mut best_score: Value = -32767;
    let mut best_move: Option<Move> = None;
    let mut i: usize = 0;
    let mut cut: bool = false;
    while !cut && i < bs.len()
        invariant
            b.wf(),
            depth < opts.max_depth,
            sign == 1 || sign == -1,
            -32767 <= alpha <= 32767,
            -32767 <= beta <= 32767,
            -32767 <= best_score <= 32767,
            bs@ == children,
            i <= children.len(),
            children.len() == spec_generate_all(*b).len(),
            forall|j: int|
                0 <= j < spec_generate_all(*b).len() ==> spec_move_ok(
                    *b,
                    (#[trigger] spec_generate_all(*b)[j]).0,
                ) && spec_generate_all(*b)[j].1.wf(),
            forall|j: int| 0 <= j < children.len() ==> spec_moves_from(spec_generate_all(*b), #[trigger] children[j]),
            forall|j: int|
                0 <= j < spec_generate_all(*b).len() ==> spec_entry_sound(
                    *b,
                    #[trigger] spec_generate_all(*b)[j],
                ),
            best_move is Some ==> depth == 0 && spec_moves_from_some(*b, best_move.unwrap()),
            depth == 0 && i > 0 && !cut ==> best_move is Some,
            cut ==> best_move is Some || depth != 0,
            opts.move_ordering != MoveOrdering::Rand && !cut ==> spec_nm(
                *b,
                alpha0,
                beta as int,
                depth as int,
                sign as int,
                *opts,
            ) == spec_nm_loop(
                children,
                i as int,
                alpha as int,
                beta as int,
                best_score as int,
                best_move,
                depth as int,
                sign as int,
                *opts,
            ),
            opts.move_ordering != MoveOrdering::Rand && cut ==> spec_nm(
                *b,
                alpha0,
                beta as int,
                depth as int,
                sign as int,
                *opts,
            ) == (best_score as int, best_move),
            spec_score_ok(best_score as int),
            opts.alpha_beta ==> alpha as int == spec_imax(alpha0, best_score as int),
            !opts.alpha_beta ==> alpha as int == alpha0,
            !cut && opts.alpha_beta && alpha0 < beta ==> (best_score as int) < beta,
            (!opts.alpha_beta || alpha0 < beta) && !cut ==> spec_pre(
                children,
                i as int,
                depth as int,
                sign as int,
                *opts,
            ) <= best_score as int,
            (!opts.alpha_beta || alpha0 < beta) && !cut ==> best_score as int <= spec_imax(
                alpha0,
                spec_pre(children, i as int, depth as int, sign as int, *opts),
            ),
            !opts.alpha_beta && !cut ==> best_score as int == spec_imax(
                -32767,
                spec_pre(children, i as int, depth as int, sign as int, *opts),
            ),
            cut ==> opts.alpha_beta,
            cut && alpha0 < beta ==> best_score >= beta && best_score as int <= spec_imax(
                -32767,
                spec_vmax(children, 0, depth as int, sign as int, *opts),
            ),
        decreases children.len() - i, (if cut { 0int } else { 1int }),
    {
        let mv = bs[i].0;
        let child = bs[i].1;
        proof {
            assert(spec_moves_from(spec_generate_all(*b), children[i as int]));
            let k = choose|k: int|
                0 <= k < spec_generate_all(*b).len() && spec_generate_all(*b)[k] == children[i as int];
            assert(spec_entry_sound(*b, spec_generate_all(*b)[k]));
            assert(child.wf());
        }
        let sub = negamax_search(&child, -beta, -alpha, depth + 1, -sign, si, opts);
        let score: Value = -sub.0;
        proof {
            let cv = spec_child_val(children[i as int], depth as int, sign as int, *opts);
            assert(spec_no_ab(spec_no_ab(*opts)) == spec_no_ab(*opts));
            assert(cv == -spec_nm(
                child,
                -32766,
                32767,
                depth as int + 1,
                -sign as int,
                spec_no_ab(*opts),
            ).0);
            lemma_loop_step(
                children,
                i as int,
                alpha0,
                beta as int,
                depth as int,
                sign as int,
                *opts,
                best_score as int,
                score as int,
            );
        }
        if score > best_score || (depth == 0 && best_move.is_none()) {
            if score > best_score {
                best_score = score;
            }
            if depth == 0 {
                best_move = Some(mv);
            }
            if opts.alpha_beta {
                if alpha < best_score {
                    alpha = best_score;
                }
                if alpha >= beta {
                    cut = true;
                }
            }
        }
        i = i + 1;
    }
    proof {
        let v = spec_nm(
            *b,
            -32766,
            32767,
            depth as int,
            sign as int,
            spec_no_ab(*opts),
        ).0;
        let ch = spec_children(*b, sign as int, spec_no_ab(*opts));
        assert(spec_no_ab(spec_no_ab(*opts)) == spec_no_ab(*opts));
        lemma_nm_false_is_max(ch, 0, -32766, 32767, -32767, None, depth as int, sign as int, spec_no_ab(*opts));
        assert(ch.to_multiset() == spec_generate_all(*b).to_multiset()) by {
            if spec_no_ab(*opts).move_ordering == MoveOrdering::Eval {
                crate::ordering::lemma_eval_order_multiset(spec_generate_all(*b), sign as int);
            }
        }
        lemma_vmax_perm(children, ch, depth as int, sign as int, spec_no_ab(*opts));
        lemma_vmax_same(children, 0, depth as int, sign as int, *opts);
        lemma_vmax_same(ch, 0, depth as int, sign as int, *opts);
        assert(v == spec_imax(-32767, spec_vmax(children, 0, depth as int, sign as int, *opts)));
        if !cut {
            lemma_pre_suffix(
                children,
                children.len() as int,
                depth as int,
                sign as int,
                *opts,
            );
            assert(spec_vmax(children, children.len() as int, depth as int, sign as int, *opts)
                == -32767);
            assert(v == spec_pre(children, children.len() as int, depth as int, sign as int, *opts)
                || v == -32767);
        }
        if depth == 0 && alpha0 == -32767 && beta == 32766 {
            lemma_nm_score_ok(*b, -32766, 32767, depth as int, sign as int, spec_no_ab(*opts));
            lemma_triple_determines(best_score as int, v);
            if opts.alpha_beta {
                lemma_ab_consistent(*b, sign as int, *opts);
                lemma_nm_free(*b, -32767, 32766, -32766, 32767, depth as int, sign as int, spec_no_ab(*opts));
            } else {
                assert(spec_no_ab(*opts) == *opts);
                lemma_nm_free(*b, -32767, 32766, -32766, 32767, depth as int, sign as int, *opts);
            }
        }
    }
    (best_score, best_move)
}

/// Is the move one the generator emits for this board?
pub open spec fn spec_moves_from_some(b: Board, m: Move) -> bool {
    exists|k: int| 0 <= k < spec_generate_all(b).len() && spec_generate_all(b)[k].0 == m
}

/// The negamax driver: searches the position at the configured depth
/// and returns the score, from White's perspective, of the best move
/// together with that move. The position must have a legal move. The
/// score never depends on the move ordering; under a deterministic
/// ordering the move is pinned as well.
pub fn negamax(b: &Board, opts: &Options) -> (r: (Value, Move))
    requires
        b.wf(),
        opts.max_depth >= 1,
        spec_generate_all(*b).len() > 0,
    ensures
        r.0 as int == spec_negamax_root(*b, *opts).0,
        opts.move_ordering != MoveOrdering::Rand ==> (r.0 as int, Some(r.1))
            == spec_negamax_root(*b, *opts),
        spec_moves_from_some(*b, r.1),
{
    let mut si = SearchInfo::new();

    match b.player {
        Color::Black => {
            let (v, m) = negamax_search(b, -32767, 32766, 0, -1, &mut si, opts);
            (-v, m.unwrap())
        },
        Color::White => {
            let (v, m) = negamax_search(b, -32767, 32766, 0, 1, &mut si, opts);
            (v, m.unwrap())
        },
    }
}

/// The same options with pruning switched off.
pub open spec fn spec_no_ab(o: Options) -> Options {
    Options {
        search_algo: o.search_algo,
        move_ordering: o.move_ordering,
        max_depth: o.max_depth,
        ui: o.ui,
        alpha_beta: false,
    }
}

/// The larger of two mathematical integers.
pub open spec fn spec_imax(a: int, b: int) -> int {
    if a >= b {
        a
    } else {
        b
    }
}

/// Without pruning, the window never influences the result.
proof fn lemma_nm_free(b: Board, a1: int, b1: int, a2: int, b2: int, depth: int, sign: int, o: Options)
    requires
        !o.alpha_beta,
    ensures
        spec_nm(b, a1, b1, depth, sign, o) == spec_nm(b, a2, b2, depth, sign, o),
    decreases o.max_depth - depth, 1int, 0int,
{
    if depth >= o.max_depth as int {
    } else {
        lemma_nm_free_loop(spec_children(b, sign, o), 0, a1, b1, a2, b2, -32767, None, depth, sign, o);
    }
}

proof fn lemma_nm_free_loop(
    children: Seq<(Move, Board)>,
    i: int,
    a1: int,
    b1: int,
    a2: int,
    b2: int,
    best: int,
    bm: Option<Move>,
    depth: int,
    sign: int,
    o: Options,
)
    requires
        !o.alpha_beta,
    ensures
        spec_nm_loop(children, i, a1, b1, best, bm, depth, sign, o) == spec_nm_loop(
            children,
            i,
            a2,
            b2,
            best,
            bm,
            depth,
            sign,
            o,
        ),
    decreases o.max_depth - depth, 0int, children.len() - i,
{
    if i < 0 || i >= children.len() || depth >= o.max_depth as int {
    } else {
        lemma_nm_free(children[i].1, -b1, -a1, -b2, -a2, depth + 1, -sign, o);
        let score = -spec_nm(children[i].1, -b1, -a1, depth + 1, -sign, o).0;
        let cond = score > best || (depth == 0 && bm is None);
        let best2 = if cond && score > best {
            score
        } else {
            best
        };
        let bm2 = if cond && depth == 0 {
            Some(children[i].0)
        } else {
            bm
        };
        lemma_nm_free_loop(children, i + 1, a1, b1, a2, b2, best2, bm2, depth, sign, o);
    }
}

/// The scores negamax can produce: an evaluation within the
/// saturation bound, or a mate score of full magnitude.
pub open spec fn spec_score_ok(x: int) -> bool {
    -30000 <= x <= 30000 || x == 32767 || x == -32767
}

proof fn lemma_nm_score_ok(b: Board, alpha: int, beta: int, depth: int, sign: int, o: Options)
    requires
        sign == 1 || sign == -1,
    ensures
        spec_score_ok(spec_nm(b, alpha, beta, depth, sign, o).0),
    decreases o.max_depth - depth, 1int, 0int,
{
    if depth >= o.max_depth as int {
        assert(-30000 <= spec_board_value(b) <= 30000);
        assert(spec_score_ok(sign * spec_board_value(b))) by (nonlinear_arith)
            requires
                sign == 1 || sign == -1,
                -30000 <= spec_board_value(b) <= 30000,
        ;
    } else {
        lemma_nm_score_ok_loop(spec_children(b, sign, o), 0, alpha, beta, -32767, None, depth, sign, o);
    }
}

proof fn lemma_nm_score_ok_loop(
    children: Seq<(Move, Board)>,
    i: int,
    alpha: int,
    beta: int,
    best: int,
    bm: Option<Move>,
    depth: int,
    sign: int,
    o: Options,
)
    requires
        sign == 1 || sign == -1,
        spec_score_ok(best),
    ensures
        spec_score_ok(spec_nm_loop(children, i, alpha, beta, best, bm, depth, sign, o).0),
    decreases o.max_depth - depth, 0int, children.len() - i,
{
    if i < 0 || i >= children.len() || depth >= o.max_depth as int {
    } else {
        lemma_nm_score_ok(children[i].1, -beta, -alpha, depth + 1, -sign, o);
        let score = -spec_nm(children[i].1, -beta, -alpha, depth + 1, -sign, o).0;
        let cond = score > best || (depth == 0 && bm is None);
        let best2 = if cond && score > best {
            score
        } else {
            best
        };
        let bm2 = if cond && depth == 0 {
            Some(children[i].0)
        } else {
            bm
        };
        let alpha2 = if cond && o.alpha_beta && alpha < best2 {
            best2
        } else {
            alpha
        };
        if cond && o.alpha_beta && alpha2 >= beta {
        } else {
            lemma_nm_score_ok_loop(children, i + 1, alpha2, beta, best2, bm2, depth, sign, o);
        }
    }
}

/// The unpruned value of the children from `i` on: the largest score
/// any of them yields, seen from this node.
pub open spec fn spec_vmax(children: Seq<(Move, Board)>, i: int, depth: int, sign: int, o: Options) -> int
    decreases o.max_depth - depth, 0int, children.len() - i,
{
    if i < 0 || i >= children.len() || depth >= o.max_depth as int {
        -32767
    } else {
        spec_imax(
            -spec_nm(children[i].1, -32766, 32767, depth + 1, -sign, spec_no_ab(o)).0,
            spec_vmax(children, i + 1, depth, sign, o),
        )
    }
}

/// Without pruning, the loop computes the running maximum of the
/// children's true scores.
proof fn lemma_nm_false_is_max(
    children: Seq<(Move, Board)>,
    i: int,
    alpha: int,
    beta: int,
    best: int,
    bm: Option<Move>,
    depth: int,
    sign: int,
    o: Options,
)
    requires
        !o.alpha_beta,
        sign == 1 || sign == -1,
        -32767 <= best,
    ensures
        spec_nm_loop(children, i, alpha, beta, best, bm, depth, sign, o).0 == spec_imax(
            best,
            spec_vmax(children, i, depth, sign, o),
        ),
    decreases o.max_depth - depth, 0int, children.len() - i,
{
    if i < 0 || i >= children.len() || depth >= o.max_depth as int {
        assert(spec_vmax(children, i, depth, sign, o) == -32767);
    } else {
        lemma_nm_free(children[i].1, -beta, -alpha, -32766, 32767, depth + 1, -sign, o);
        assert(spec_no_ab(o) == o);
        lemma_nm_score_ok(children[i].1, -beta, -alpha, depth + 1, -sign, o);
        let score = -spec_nm(children[i].1, -beta, -alpha, depth + 1, -sign, o).0;
        assert(-32767 <= score);
        assert(-spec_nm(children[i].1, -32766, 32767, depth + 1, -sign, spec_no_ab(o)).0 == score);
        assert(spec_vmax(children, i, depth, sign, o) == spec_imax(
            score,
            spec_vmax(children, i + 1, depth, sign, o),
        ));
        let cond = score > best || (depth == 0 && bm is None);
        let best2 = if cond && score > best {
            score
        } else {
            best
        };
        let bm2 = if cond && depth == 0 {
            Some(children[i].0)
        } else {
            bm
        };
        lemma_nm_false_is_max(children, i + 1, alpha, beta, best2, bm2, depth, sign, o);
        assert(spec_nm_loop(children, i, alpha, beta, best, bm, depth, sign, o) == spec_nm_loop(
            children,
            i + 1,
            alpha,
            beta,
            best2,
            bm2,
            depth,
            sign,
            o,
        ));
    }
}

/// What a pruned search proves about the unpruned value `v` of the
/// same node: inside the window the result is exact, at or below
/// alpha it bounds `v` from above, at or above beta from below.
proof fn lemma_ab_sound(b: Board, a0: int, beta: int, depth: int, sign: int, o: Options)
    requires
        o.alpha_beta,
        sign == 1 || sign == -1,
        -32767 <= a0,
        a0 < beta,
        beta <= 32767,
    ensures
        ({
            let r = spec_nm(b, a0, beta, depth, sign, o).0;
            let v = spec_nm(b, -32766, 32767, depth, sign, spec_no_ab(o)).0;
            &&& r <= a0 ==> v <= r
            &&& a0 < r < beta ==> v == r
            &&& r >= beta ==> v >= r
        }),
    decreases o.max_depth - depth, 1int, 0int,
{
    if depth >= o.max_depth as int {
    } else {
        let children = spec_children(b, sign, o);
        assert(spec_children(b, sign, spec_no_ab(o)) == children);
        assert(spec_no_ab(spec_no_ab(o)) == spec_no_ab(o));
        lemma_nm_false_is_max(children, 0, -32766, 32767, -32767, None, depth, sign, spec_no_ab(o));
        assert(spec_vmax(children, 0, depth, sign, spec_no_ab(o)) == spec_vmax(
            children,
            0,
            depth,
            sign,
            o,
        )) by {
            lemma_vmax_same(children, 0, depth, sign, o);
        }
        assert(spec_imax(a0, -32767) == a0);
        lemma_ab_sound_loop(children, 0, a0, beta, -32767, None, depth, sign, o);
    }
}

/// The suffix maximum only reads the pruning-free options.
proof fn lemma_vmax_same(children: Seq<(Move, Board)>, i: int, depth: int, sign: int, o: Options)
    ensures
        spec_vmax(children, i, depth, sign, spec_no_ab(o)) == spec_vmax(children, i, depth, sign, o),
    decreases o.max_depth - depth, 0int, children.len() - i,
{
    if i < 0 || i >= children.len() || depth >= o.max_depth as int {
    } else {
        assert(spec_no_ab(spec_no_ab(o)) == spec_no_ab(o));
        lemma_vmax_same(children, i + 1, depth, sign, o);
    }
}

#[verifier::rlimit(100)]
proof fn lemma_ab_sound_loop(
    children: Seq<(Move, Board)>,
    i: int,
    a0: int,
    beta: int,
    best: int,
    bm: Option<Move>,
    depth: int,
    sign: int,
    o: Options,
)
    requires
        o.alpha_beta,
        sign == 1 || sign == -1,
        -32767 <= a0,
        a0 < beta,
        beta <= 32767,
        -32767 <= best,
        spec_imax(a0, best) < beta,
    ensures
        ({
            let alpha = spec_imax(a0, best);
            let r = spec_nm_loop(children, i, alpha, beta, best, bm, depth, sign, o).0;
            let w = spec_imax(best, spec_vmax(children, i, depth, sign, o));
            &&& r >= best
            &&& r <= alpha ==> w <= r
            &&& alpha < r && r < beta ==> w == r
            &&& r >= beta ==> w >= r
        }),
    decreases o.max_depth - depth, 0int, children.len() - i,
{
    let alpha = spec_imax(a0, best);
    let r = spec_nm_loop(children, i, alpha, beta, best, bm, depth, sign, o).0;
    if i < 0 || i >= children.len() || depth >= o.max_depth as int {
        assert(r == best);
    } else {
        let child = children[i].1;
        assert(spec_no_ab(spec_no_ab(o)) == spec_no_ab(o));
        lemma_ab_sound(child, -beta, -alpha, depth + 1, -sign, o);
        lemma_nm_free(child, -(-alpha), -(-beta), -32766, 32767, depth + 1, -sign, spec_no_ab(o));
        let rc = spec_nm(child, -beta, -alpha, depth + 1, -sign, o).0;
        let vc = spec_nm(child, -32766, 32767, depth + 1, -sign, spec_no_ab(o)).0;
        let score = -rc;
        let truescore = -vc;
        // The three windows of the child, pushed back to this node:
        // at or above beta the true score is at least the probe, at
        // or below alpha at most, and in between they agree.
        assert(score >= beta ==> truescore >= score);
        assert(alpha < score && score < beta ==> truescore == score);
        assert(score <= alpha ==> truescore <= score);

        let cond = score > best || (depth == 0 && bm is None);
        let best2 = if cond && score > best {
            score
        } else {
            best
        };
        let bm2 = if cond && depth == 0 {
            Some(children[i].0)
        } else {
            bm
        };
        let alpha2 = if cond && o.alpha_beta && alpha < best2 {
            best2
        } else {
            alpha
        };
        assert(best2 == spec_imax(best, best2));
        let w = spec_imax(best, spec_vmax(children, i, depth, sign, o));
        assert(spec_vmax(children, i, depth, sign, o) == spec_imax(
            truescore,
            spec_vmax(children, i + 1, depth, sign, o),
        ));
        if cond && o.alpha_beta && alpha2 >= beta {
            // Cut: the score reached beta, and the child's true score
            // is at least as large.
            assert(best2 >= beta);
            assert(score >= beta);
            assert(r == best2);
            assert(r == score);
            assert(w >= truescore);
        } else {
            assert(alpha2 == spec_imax(a0, best2));
            lemma_ab_sound_loop(children, i + 1, a0, beta, best2, bm2, depth, sign, o);
            let r2 = spec_nm_loop(children, i + 1, alpha2, beta, best2, bm2, depth, sign, o).0;
            let w2 = spec_imax(best2, spec_vmax(children, i + 1, depth, sign, o));
            assert(r == r2);
            assert(r >= best2);
            if r <= alpha {
                assert(r <= alpha2);
                assert(w2 <= r);
                assert(score <= best2);
                assert(score <= alpha);
                assert(truescore <= score);
                assert(w <= r);
            } else if r < beta {
                if score <= alpha {
                    assert(best2 <= alpha);
                    assert(alpha2 == alpha);
                    assert(w2 == r);
                    assert(truescore <= score);
                    if w2 == best2 && best2 > spec_vmax(children, i + 1, depth, sign, o) {
                        if best2 == score && score > best {
                            assert(r == score);
                            assert(false);
                        }
                    }
                    assert(w == r);
                } else {
                    // The child's probe was exact.
                    assert(score < beta);
                    assert(truescore == score);
                    assert(score > best);
                    assert(best2 == score);
                    assert(w == spec_imax(w2, best));
                    if r <= alpha2 {
                        assert(w2 <= r);
                        assert(w2 >= best2);
                        assert(r >= best2);
                        assert(r == best2 || r > best2);
                        assert(alpha2 == spec_imax(a0, best2));
                        assert(r <= spec_imax(a0, best2));
                        assert(r == best2);
                        assert(w == r);
                    } else {
                        assert(w2 == r);
                        assert(w == r);
                    }
                }
            } else {
                assert(r >= beta);
                assert(w2 >= r);
                if w2 == best2 && best2 > spec_vmax(children, i + 1, depth, sign, o) {
                    if best2 == score && score > best {
                        assert(score < beta);
                        assert(false);
                    }
                }
                assert(w >= w2);
            }
        }
    }
}

/// Pruning does not change the root score: negamax with and without
/// alpha-beta agree at the root window.
pub proof fn lemma_ab_consistent(b: Board, sign: int, o: Options)
    requires
        o.alpha_beta,
        sign == 1 || sign == -1,
    ensures
        spec_nm(b, -32767, 32766, 0, sign, o).0 == spec_nm(
            b,
            -32767,
            32766,
            0,
            sign,
            spec_no_ab(o),
        ).0,
{
    lemma_ab_sound(b, -32767, 32766, 0, sign, o);
    lemma_nm_free(b, -32766, 32767, -32767, 32766, 0, sign, spec_no_ab(o));
    lemma_nm_score_ok(b, -32767, 32766, 0, sign, o);
    lemma_nm_score_ok(b, -32767, 32766, 0, sign, spec_no_ab(o));
    let r = spec_nm(b, -32767, 32766, 0, sign, o).0;
    let v = spec_nm(b, -32767, 32766, 0, sign, spec_no_ab(o)).0;
    if r >= 32766 {
        assert(r == 32767);
        assert(v >= r);
        assert(v <= 32767) by {
            lemma_nm_le(b, -32766, 32767, 0, sign, spec_no_ab(o));
        }
    } else if r <= -32767 {
        assert(v <= -32767);
        assert(v >= -32767) by {
            lemma_nm_ge(b, -32766, 32767, 0, sign, spec_no_ab(o));
        }
    }
}

/// Pruning does not change the root result's score for either side
/// to move; among equal moves the chosen one may differ.
pub proof fn lemma_ab_consistent_root(b: Board, o: Options)
    requires
        o.alpha_beta,
    ensures
        spec_negamax_root(b, o).0 == spec_negamax_root(b, spec_no_ab(o)).0,
{
    match b.player {
        Color::Black => {
            lemma_ab_consistent(b, -1, o);
        },
        Color::White => {
            lemma_ab_consistent(b, 1, o);
        },
    }
}

/// Every negamax score is at most the largest representable one.
proof fn lemma_nm_le(b: Board, alpha: int, beta: int, depth: int, sign: int, o: Options)
    requires
        sign == 1 || sign == -1,
    ensures
        spec_nm(b, alpha, beta, depth, sign, o).0 <= 32767,
{
    lemma_nm_score_ok(b, alpha, beta, depth, sign, o);
}

/// Every negamax score is at least the smallest one the search uses.
proof fn lemma_nm_ge(b: Board, alpha: int, beta: int, depth: int, sign: int, o: Options)
    requires
        sign == 1 || sign == -1,
    ensures
        spec_nm(b, alpha, beta, depth, sign, o).0 >= -32767,
{
    lemma_nm_score_ok(b, alpha, beta, depth, sign, o);
}

/// The value one child contributes to its parent: the negation of its
/// canonical (full-window, unpruned) search value.
pub open spec fn spec_child_val(e: (Move, Board), depth: int, sign: int, o: Options) -> int {
    -spec_nm(e.1, -32766, 32767, depth + 1, -sign, spec_no_ab(o)).0
}

/// The suffix maximum stays within the score set.
proof fn lemma_vmax_score_ok(children: Seq<(Move, Board)>, i: int, depth: int, sign: int, o: Options)
    requires
        sign == 1 || sign == -1,
    ensures
        spec_score_ok(spec_vmax(children, i, depth, sign, o)),
    decreases o.max_depth - depth, 0int, children.len() - i,
{
    if i < 0 || i >= children.len() || depth >= o.max_depth as int {
    } else {
        lemma_nm_score_ok(children[i].1, -32766, 32767, depth + 1, -sign, spec_no_ab(o));
        lemma_vmax_score_ok(children, i + 1, depth, sign, o);
    }
}

/// Every element's value bounds the suffix maximum from below.
proof fn lemma_vmax_ge(children: Seq<(Move, Board)>, i: int, j: int, depth: int, sign: int, o: Options)
    requires
        0 <= i <= j < children.len(),
        depth < o.max_depth as int,
    ensures
        spec_vmax(children, i, depth, sign, o) >= spec_child_val(children[j], depth, sign, o),
    decreases j - i,
{
    if i < j {
        lemma_vmax_ge(children, i + 1, j, depth, sign, o);
    }
}

/// The suffix maximum is the base or some element's value.
proof fn lemma_vmax_attained(children: Seq<(Move, Board)>, i: int, depth: int, sign: int, o: Options)
    requires
        0 <= i,
    ensures
        spec_vmax(children, i, depth, sign, o) == -32767 || exists|j: int|
            i <= j < children.len() && spec_vmax(children, i, depth, sign, o) == spec_child_val(
                #[trigger] children[j],
                depth,
                sign,
                o,
            ),
    decreases o.max_depth - depth, 0int, children.len() - i,
{
    if i < 0 || i >= children.len() || depth >= o.max_depth as int {
    } else {
        lemma_vmax_attained(children, i + 1, depth, sign, o);
        if spec_vmax(children, i, depth, sign, o) == spec_child_val(children[i], depth, sign, o) {
            assert(exists|j: int|
                i <= j < children.len() && spec_vmax(children, i, depth, sign, o)
                    == spec_child_val(#[trigger] children[j], depth, sign, o)) by {
                assert(spec_vmax(children, i, depth, sign, o) == spec_child_val(
                    children[i],
                    depth,
                    sign,
                    o,
                ));
            }
        }
    }
}

/// Two sequences holding the same entries have the same maximum child
/// value: the maximum does not care about the order.
proof fn lemma_vmax_perm(
    s1: Seq<(Move, Board)>,
    s2: Seq<(Move, Board)>,
    depth: int,
    sign: int,
    o: Options,
)
    requires
        s1.to_multiset() == s2.to_multiset(),
    ensures
        spec_vmax(s1, 0, depth, sign, o) == spec_vmax(s2, 0, depth, sign, o),
{
    broadcast use vstd::seq_lib::group_to_multiset_ensures;

    if depth >= o.max_depth as int {
        assert(spec_vmax(s1, 0, depth, sign, o) == -32767);
        assert(spec_vmax(s2, 0, depth, sign, o) == -32767);
    } else {
        lemma_vmax_le_other(s1, s2, depth, sign, o);
        lemma_vmax_le_other(s2, s1, depth, sign, o);
    }
}

/// One direction of the permutation argument.
proof fn lemma_vmax_le_other(
    s1: Seq<(Move, Board)>,
    s2: Seq<(Move, Board)>,
    depth: int,
    sign: int,
    o: Options,
)
    requires
        s1.to_multiset() == s2.to_multiset(),
        depth < o.max_depth as int,
    ensures
        spec_vmax(s1, 0, depth, sign, o) <= spec_vmax(s2, 0, depth, sign, o),
{
    broadcast use vstd::seq_lib::group_to_multiset_ensures;

    lemma_vmax_attained(s1, 0, depth, sign, o);
    lemma_vmax_base(s2, 0, depth, sign, o);
    let v1 = spec_vmax(s1, 0, depth, sign, o);
    if v1 != -32767 {
        let j = choose|j: int|
            0 <= j < s1.len() && v1 == spec_child_val(#[trigger] s1[j], depth, sign, o);
        assert(s1.contains(s1[j]));
        assert(s1.to_multiset().count(s1[j]) > 0);
        assert(s2.to_multiset().count(s1[j]) > 0);
        assert(s2.contains(s1[j]));
        let k = choose|k: int| 0 <= k < s2.len() && s2[k] == s1[j];
        lemma_vmax_ge(s2, 0, k, depth, sign, o);
    }
}

/// The suffix maximum never drops below its base.
proof fn lemma_vmax_base(children: Seq<(Move, Board)>, i: int, depth: int, sign: int, o: Options)
    ensures
        spec_vmax(children, i, depth, sign, o) >= -32767,
    decreases o.max_depth - depth, 0int, children.len() - i,
{
    if i < 0 || i >= children.len() || depth >= o.max_depth as int {
    } else {
        lemma_vmax_base(children, i + 1, depth, sign, o);
    }
}


/// The largest canonical child value among the first `i` children,
/// with the childless default as base.
pub open spec fn spec_pre(children: Seq<(Move, Board)>, i: int, depth: int, sign: int, o: Options) -> int
    decreases i,
{
    if i <= 0 {
        -32767
    } else {
        spec_imax(
            spec_pre(children, i - 1, depth, sign, o),
            spec_child_val(children[i - 1], depth, sign, o),
        )
    }
}

proof fn lemma_pre_base(children: Seq<(Move, Board)>, i: int, depth: int, sign: int, o: Options)
    ensures
        spec_pre(children, i, depth, sign, o) >= -32767,
    decreases i,
{
    if i > 0 {
        lemma_pre_base(children, i - 1, depth, sign, o);
    }
}

/// Prefix and suffix maxima together cover the whole sequence.
proof fn lemma_pre_suffix(children: Seq<(Move, Board)>, i: int, depth: int, sign: int, o: Options)
    requires
        0 <= i <= children.len(),
        depth < o.max_depth as int,
    ensures
        spec_imax(
            spec_pre(children, i, depth, sign, o),
            spec_vmax(children, i, depth, sign, o),
        ) == spec_imax(-32767, spec_vmax(children, 0, depth, sign, o)),
    decreases i,
{
    if i == 0 {
    } else {
        lemma_pre_suffix(children, i - 1, depth, sign, o);
        assert(spec_vmax(children, i - 1, depth, sign, o) == spec_imax(
            spec_child_val(children[i - 1], depth, sign, o),
            spec_vmax(children, i, depth, sign, o),
        ));
    }
}

/// At the root window, the three window bounds and the score set pin
/// the result to the canonical value.
proof fn lemma_triple_determines(r: int, v: int)
    requires
        spec_score_ok(r),
        spec_score_ok(v),
        r <= -32767 ==> v <= r,
        -32767 < r && r < 32766 ==> r == v,
        r >= 32766 ==> v >= r,
    ensures
        r == v,
{
}

/// One loop step of the bound bookkeeping: how the running best and
/// the prefix maximum of canonical child values evolve, for both the
/// pruning and the plain search.
proof fn lemma_loop_step(
    children: Seq<(Move, Board)>,
    i: int,
    a0: int,
    beta: int,
    depth: int,
    sign: int,
    o: Options,
    best: int,
    score: int,
)
    requires
        0 <= i < children.len(),
        depth < o.max_depth as int,
        -32767 <= best,
        ({
            let cv = spec_child_val(children[i], depth, sign, o);
            &&& (!o.alpha_beta ==> score == cv)
            &&& (o.alpha_beta && a0 < beta ==> {
                &&& (score >= beta ==> cv >= score)
                &&& (spec_imax(a0, best) < score && score < beta ==> score == cv)
                &&& (score <= spec_imax(a0, best) ==> cv <= score)
            })
        }),
        (!o.alpha_beta || a0 < beta) ==> spec_pre(children, i, depth, sign, o) <= best,
        (!o.alpha_beta || a0 < beta) ==> best <= spec_imax(a0, spec_pre(children, i, depth, sign, o)),
        !o.alpha_beta ==> best == spec_imax(-32767, spec_pre(children, i, depth, sign, o)),
        o.alpha_beta && a0 < beta ==> best < beta,
    ensures
        ({
            let best2 = if score > best {
                score
            } else {
                best
            };
            let pre2 = spec_pre(children, i + 1, depth, sign, o);
            &&& ((!o.alpha_beta || a0 < beta) && best2 < beta ==> pre2 <= best2)
            &&& ((!o.alpha_beta || a0 < beta) && best2 < beta ==> best2 <= spec_imax(a0, pre2))
            &&& (!o.alpha_beta ==> best2 == spec_imax(-32767, pre2))
            &&& (o.alpha_beta && a0 < beta && best2 >= beta ==> best2 <= spec_imax(
                -32767,
                spec_vmax(children, 0, depth, sign, o),
            ))
        }),
{
    let cv = spec_child_val(children[i], depth, sign, o);
    let pre = spec_pre(children, i, depth, sign, o);
    assert(spec_pre(children, i + 1, depth, sign, o) == spec_imax(pre, cv));
    lemma_pre_base(children, i, depth, sign, o);
    if o.alpha_beta && a0 < beta {
        let best2: int = if score > best {
            score
        } else {
            best
        };
        if best2 >= beta {
            assert(score == best2);
            assert(cv >= score);
            lemma_vmax_ge(children, 0, i, depth, sign, o);
        } else {
            if score > best {
                if score <= spec_imax(a0, best) {
                    assert(cv <= score);
                    assert(score <= a0);
                } else {
                    assert(score == cv);
                }
            } else {
                assert(score <= spec_imax(a0, best));
                assert(cv <= score);
            }
        }
    }
}

} // verus!
