//! Move ordering: keep the generated order, shuffle uniformly, or
//! sort the children so that the most promising for the current side
//! come first.

use vstd::prelude::*;

use rand::seq::SliceRandom;

use crate::board::{Board, Move};
use crate::evaluation::{spec_board_value, Valuable};
use crate::misc::{MoveOrdering, Options};

verus! {

/// The sort key of a child: its evaluation from the point of view of
/// the side the current ply maximizes for.
pub open spec fn spec_key(sign: int, e: (Move, Board)) -> int {
    sign * spec_board_value(e.1)
}

/// Where a stable descending insertion puts `e`: after every element
/// whose key is at least as large.
pub open spec fn spec_insert_pos(s: Seq<(Move, Board)>, sign: int, e: (Move, Board)) -> int
    decreases s.len(),
{
    if s.len() == 0 {
        0
    } else if spec_key(sign, s[0]) >= spec_key(sign, e) {
        1 + spec_insert_pos(s.drop_first(), sign, e)
    } else {
        0
    }
}

/// One stable descending insertion.
pub open spec fn spec_insert(s: Seq<(Move, Board)>, sign: int, e: (Move, Board)) -> Seq<
    (Move, Board),
> {
    s.insert(spec_insert_pos(s, sign, e), e)
}

/// The first `n` elements of `s`, insertion-sorted by descending key.
pub open spec fn spec_eval_sorted(s: Seq<(Move, Board)>, sign: int, n: int) -> Seq<(Move, Board)>
    decreases n,
{
    if n <= 0 {
        Seq::empty()
    } else {
        spec_insert(spec_eval_sorted(s, sign, n - 1), sign, s[n - 1])
    }
}

/// The whole sequence, insertion-sorted by descending key: a stable
/// sort, so ties keep the generated order.
pub open spec fn spec_eval_order(s: Seq<(Move, Board)>, sign: int) -> Seq<(Move, Board)> {
    spec_eval_sorted(s, sign, s.len() as int)
}

/// The insertion position is inside the sequence, everything before
/// it has a key at least as large as the inserted element's, and the
/// element at it (when there is one) has a smaller key.
pub proof fn lemma_insert_pos_char(s: Seq<(Move, Board)>, sign: int, e: (Move, Board))
    ensures
        0 <= spec_insert_pos(s, sign, e) <= s.len(),
        forall|q: int|
            0 <= q < spec_insert_pos(s, sign, e) ==> spec_key(sign, #[trigger] s[q]) >= spec_key(
                sign,
                e,
            ),
        spec_insert_pos(s, sign, e) < s.len() ==> spec_key(sign, s[spec_insert_pos(s, sign, e)])
            < spec_key(sign, e),
    decreases s.len(),
{
    if s.len() == 0 {
    } else if spec_key(sign, s[0]) >= spec_key(sign, e) {
        lemma_insert_pos_char(s.drop_first(), sign, e);
        assert forall|q: int| 0 <= q < spec_insert_pos(s, sign, e) implies spec_key(
            sign,
            s[q],
        ) >= spec_key(sign, e) by {
            if q > 0 {
                assert(s[q] == s.drop_first()[q - 1]);
            }
        }
        if spec_insert_pos(s, sign, e) < s.len() {
            assert(s[spec_insert_pos(s, sign, e)] == s.drop_first()[spec_insert_pos(
                s.drop_first(),
                sign,
                e,
            )]);
        }
    } else {
    }
}

/// Any position with the characterization's properties is the
/// insertion position.
pub proof fn lemma_insert_pos_unique(s: Seq<(Move, Board)>, sign: int, e: (Move, Board), p: int)
    requires
        0 <= p <= s.len(),
        forall|q: int| 0 <= q < p ==> spec_key(sign, #[trigger] s[q]) >= spec_key(sign, e),
        p < s.len() ==> spec_key(sign, s[p]) < spec_key(sign, e),
    ensures
        p == spec_insert_pos(s, sign, e),
    decreases s.len(),
{
    if s.len() == 0 {
    } else if spec_key(sign, s[0]) >= spec_key(sign, e) {
        assert(p != 0);
        lemma_insert_pos_unique(s.drop_first(), sign, e, p - 1);
    } else {
        assert(p == 0);
    }
}

/// Inserting keeps the multiset of elements, with `e` added once.
pub proof fn lemma_insert_multiset(s: Seq<(Move, Board)>, sign: int, e: (Move, Board))
    ensures
        spec_insert(s, sign, e).to_multiset() == s.to_multiset().insert(e),
{
    broadcast use vstd::seq_lib::group_seq_lib_default;

    let p = spec_insert_pos(s, sign, e);
    lemma_insert_pos_char(s, sign, e);
    assert(spec_insert(s, sign, e) =~= s.take(p).push(e) + s.skip(p));
    vstd::seq_lib::lemma_multiset_commutative(s.take(p).push(e), s.skip(p));
    s.take(p).to_multiset_ensures();
    vstd::seq_lib::lemma_multiset_commutative(s.take(p), s.skip(p));
    assert(s =~= s.take(p) + s.skip(p));
    assert(spec_insert(s, sign, e).to_multiset() =~= s.to_multiset().insert(e));
}

/// The sorted sequence holds exactly the elements of the original.
pub proof fn lemma_eval_sorted_multiset(s: Seq<(Move, Board)>, sign: int, n: int)
    requires
        0 <= n <= s.len(),
    ensures
        spec_eval_sorted(s, sign, n).to_multiset() == s.take(n).to_multiset(),
    decreases n,
{
    broadcast use vstd::seq_lib::group_seq_lib_default;

    if n <= 0 {
        assert(s.take(0) =~= Seq::<(Move, Board)>::empty());
    } else {
        lemma_eval_sorted_multiset(s, sign, n - 1);
        lemma_insert_multiset(spec_eval_sorted(s, sign, n - 1), sign, s[n - 1]);
        s.take(n - 1).to_multiset_ensures();
        assert(s.take(n) =~= s.take(n - 1).push(s[n - 1]));
    }
}

/// Evaluation ordering is a permutation of the generated children.
pub proof fn lemma_eval_order_multiset(s: Seq<(Move, Board)>, sign: int)
    ensures
        spec_eval_order(s, sign).to_multiset() == s.to_multiset(),
{
    lemma_eval_sorted_multiset(s, sign, s.len() as int);
    assert(s.take(s.len() as int) =~= s);
}

/// The sort key of a child, computed in machine integers.
fn key_of(sign: i8, e: &(Move, Board)) -> (k: i32)
    requires
        sign == 1 || sign == -1,
        e.1.wf(),
    ensures
        k as int == spec_key(sign as int, *e),
{
    let v = e.1.value();
    if sign == 1 {
        v as i32
    } else {
        -(v as i32)
    }
}

/// Relies on rand's `SliceRandom::shuffle`: an in-place permutation
/// of the slice by repeated swaps, so the entries are kept, only
/// their order changes.
#[verifier::external_body]
fn shuffle_entries(bs: &mut Vec<(Move, Board)>)
    ensures
        final(bs)@.to_multiset() == old(bs)@.to_multiset(),
{
    bs.shuffle(&mut rand::thread_rng());
}

/// Orders the children per the options: `None` keeps the generated
/// order, `Rand` shuffles them, `Eval` sorts them by descending
/// evaluation for the side the current ply maximizes for.
pub fn move_ordering(bs: &mut Vec<(Move, Board)>, sign: i8, opts: &Options)
    requires
        sign == 1 || sign == -1,
        forall|j: int| 0 <= j < old(bs)@.len() ==> (#[trigger] old(bs)@[j]).1.wf(),
    ensures
        opts.move_ordering == MoveOrdering::NoOrder ==> final(bs)@ == old(bs)@,
        opts.move_ordering == MoveOrdering::Eval ==> final(bs)@ == spec_eval_order(
            old(bs)@,
            sign as int,
        ),
        final(bs)@.to_multiset() == old(bs)@.to_multiset(),
{
    match opts.move_ordering {
        MoveOrdering::Eval => {
            let mut result: Vec<(Move, Board)> = Vec::new();
            let mut i: usize = 0;
            while i < bs.len()
                invariant
                    sign == 1 || sign == -1,
                    i <= bs@.len(),
                    bs@ == old(bs)@,
                    forall|j: int| 0 <= j < bs@.len() ==> (#[trigger] bs@[j]).1.wf(),
                    result@ == spec_eval_sorted(bs@, sign as int, i as int),
                    forall|j: int| 0 <= j < result@.len() ==> (#[trigger] result@[j]).1.wf(),
                decreases bs@.len() - i,
            {
                let e = bs[i];
                let ghost sorted_pre = result@;
                let ekey: i32 = key_of(sign, &e);
                let mut p: usize = 0;
                let mut stop: bool = false;
                while !stop && p < result.len()
                    invariant
                        sign == 1 || sign == -1,
                        p <= result@.len(),
                        result@ == sorted_pre,
                        ekey as int == spec_key(sign as int, e),
                        e.1.wf(),
                        forall|j: int| 0 <= j < result@.len() ==> (#[trigger] result@[j]).1.wf(),
                        forall|q: int|
                            0 <= q < p ==> spec_key(sign as int, #[trigger] result@[q])
                                >= spec_key(sign as int, e),
                        stop ==> p < result@.len() && spec_key(sign as int, result@[p as int])
                            < spec_key(sign as int, e),
                    decreases result@.len() - p, (if stop { 0int } else { 1int }),
                {
                    let c = result[p];
                    let ckey: i32 = key_of(sign, &c);
                    if ckey < ekey {
                        stop = true;
                    } else {
                        p = p + 1;
                    }
                }
                proof {
                    lemma_insert_pos_unique(result@, sign as int, e, p as int);
                }
                result.insert(p, e);
                i = i + 1;
            }
            proof {
                lemma_eval_order_multiset(bs@, sign as int);
            }
            *bs = result;
        },
        MoveOrdering::Rand => {
            shuffle_entries(bs);
        },
        MoveOrdering::NoOrder => (),
    }
}

} // verus!
