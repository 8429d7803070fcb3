//! Pseudo-legal move geometry: ray walks, knight leaps, pawn pushes
//! and captures, and castling candidates; and the legal-move generator
//! that filters out moves leaving the mover's own king in check.

use vstd::prelude::*;

use crate::board::{
    back_rank, last_rank, spec_apply_move, spec_move_ok, spec_pos_at, Board, Color, Move, MoveType,
    Piece, Pos, Tile,
};
use crate::inspection::{spec_in_check, spec_move_type};

verus! {

/// The squares a ray in direction `(dc, dr)` emits, starting `i` steps
/// out: empty squares until the board's edge or a piece; a square held
/// by an enemy piece is included and ends the ray.
pub open spec fn spec_arm(b: Board, f: Pos, dc: int, dr: int, max_len: int, i: int) -> Seq<Pos>
    decreases max_len - i + 1,
{
    if i > max_len {
        Seq::empty()
    } else {
        match spec_pos_at(f.col as int + dc * i, f.row as int + dr * i) {
            None => Seq::empty(),
            Some(t_pos) => match spec_move_type(b, f, t_pos) {
                MoveType::Move => seq![t_pos] + spec_arm(b, f, dc, dr, max_len, i + 1),
                MoveType::Capture(p) => seq![t_pos],
                MoveType::Illegal => Seq::empty(),
            },
        }
    }
}

/// The four diagonal rays, in the order north-west, north-east,
/// south-east, south-west.
pub open spec fn spec_bishop_moves(b: Board, f: Pos, max_len: int) -> Seq<Pos> {
    spec_arm(b, f, -1, 1, max_len, 1) + spec_arm(b, f, 1, 1, max_len, 1) + spec_arm(
        b,
        f,
        1,
        -1,
        max_len,
        1,
    ) + spec_arm(b, f, -1, -1, max_len, 1)
}

/// The four orthogonal rays, in the order north, east, south, west.
pub open spec fn spec_rook_moves(b: Board, f: Pos, max_len: int) -> Seq<Pos> {
    spec_arm(b, f, 0, 1, max_len, 1) + spec_arm(b, f, 1, 0, max_len, 1) + spec_arm(
        b,
        f,
        0,
        -1,
        max_len,
        1,
    ) + spec_arm(b, f, -1, 0, max_len, 1)
}

/// Diagonal and orthogonal rays together.
pub open spec fn spec_queen_moves(b: Board, f: Pos, max_len: int) -> Seq<Pos> {
    spec_bishop_moves(b, f, max_len) + spec_rook_moves(b, f, max_len)
}

/// One knight-leap candidate: the offset square when it is on the
/// board and not blocked by a piece of the mover's own side.
pub open spec fn spec_knight_cand(b: Board, f: Pos, dc: int, dr: int) -> Seq<Pos> {
    match spec_pos_at(f.col as int + dc, f.row as int + dr) {
        None => Seq::empty(),
        Some(t_pos) => if spec_move_type(b, f, t_pos) != MoveType::Illegal {
            seq![t_pos]
        } else {
            Seq::empty()
        },
    }
}

/// The eight knight leaps, in a fixed order.
pub open spec fn spec_knight_moves(b: Board, f: Pos) -> Seq<Pos> {
    spec_knight_cand(b, f, -1, -2) + spec_knight_cand(b, f, -1, 2) + spec_knight_cand(b, f, 1, -2)
        + spec_knight_cand(b, f, 1, 2) + spec_knight_cand(b, f, -2, -1) + spec_knight_cand(
        b,
        f,
        -2,
        1,
    ) + spec_knight_cand(b, f, 2, -1) + spec_knight_cand(b, f, 2, 1)
}

/// One diagonal pawn capture candidate.
pub open spec fn spec_pawn_cap(b: Board, f: Pos, dc: int, dr: int) -> Seq<Pos> {
    match spec_pos_at(f.col as int + dc, f.row as int + dr) {
        None => Seq::empty(),
        Some(t_pos) => match spec_move_type(b, f, t_pos) {
            MoveType::Capture(p) => seq![t_pos],
            _ => Seq::empty(),
        },
    }
}

/// The pawn moves: forward one to an empty square, forward two from
/// the starting rank over an empty square, and the two diagonal
/// captures.
pub open spec fn spec_pawn_moves(b: Board, f: Pos) -> Seq<Pos> {
    match b.spec_at(f) {
        None => Seq::empty(),
        Some(ft) => {
            let dr: int = if ft.color == Color::White {
                1
            } else {
                -1
            };
            let start: int = if ft.color == Color::White {
                1
            } else {
                6
            };
            let forward: Seq<Pos> = match spec_pos_at(f.col as int, f.row as int + dr) {
                None => Seq::empty(),
                Some(t1) => if spec_move_type(b, f, t1) == MoveType::Move {
                    seq![t1] + if f.row as int == start {
                        match spec_pos_at(f.col as int, f.row as int + 2 * dr) {
                            None => Seq::empty(),
                            Some(t2) => if spec_move_type(b, f, t2) == MoveType::Move {
                                seq![t2]
                            } else {
                                Seq::empty()
                            },
                        }
                    } else {
                        Seq::empty()
                    }
                } else {
                    Seq::empty()
                },
            };
            forward + spec_pawn_cap(b, f, -1, dr) + spec_pawn_cap(b, f, 1, dr)
        },
    }
}

/// A castling candidate for the side to move: the matching right is
/// still held, the king stands on its original square, the squares
/// between king and rook are empty, the rook stands on its corner, and
/// the side is not currently in check. `side_col` is 2 for queen-side
/// and 6 for king-side.
pub open spec fn spec_castle_cand(b: Board, f: Pos, side_col: int) -> Seq<Pos> {
    let rank = back_rank(b.player);
    let right = if side_col == 2 {
        b.can_castle_qs[b.player.spec_idx()]
    } else {
        b.can_castle_ks[b.player.spec_idx()]
    };
    let path_clear = if side_col == 2 {
        b.tiles[rank][1] is None && b.tiles[rank][2] is None && b.tiles[rank][3] is None
    } else {
        b.tiles[rank][5] is None && b.tiles[rank][6] is None
    };
    let corner_col: int = if side_col == 2 {
        0
    } else {
        7
    };
    let rook_home = b.tiles[rank][corner_col] == Some(
        Tile { piece: Piece::Rook, color: b.player },
    );
    if right && f == (Pos { row: rank as i8, col: 4 }) && path_clear && rook_home && !spec_in_check(
        b,
        b.player,
    ) {
        seq![Pos { row: rank as i8, col: side_col as i8 }]
    } else {
        Seq::empty()
    }
}

/// The king's moves: one step in each of the eight directions, then
/// the queen-side and king-side castling candidates.
pub open spec fn spec_king_moves(b: Board, f: Pos) -> Seq<Pos> {
    spec_bishop_moves(b, f, 1) + spec_rook_moves(b, f, 1) + spec_castle_cand(b, f, 2)
        + spec_castle_cand(b, f, 6)
}

/// Every pseudo-legal destination of the piece standing on `f`.
pub open spec fn spec_gen_moves(b: Board, f: Pos) -> Seq<Pos> {
    match b.spec_at(f) {
        None => Seq::empty(),
        Some(ft) => match ft.piece {
            Piece::Pawn => spec_pawn_moves(b, f),
            Piece::Knight => spec_knight_moves(b, f),
            Piece::Bishop => spec_bishop_moves(b, f, 7),
            Piece::Rook => spec_rook_moves(b, f, 7),
            Piece::Queen => spec_queen_moves(b, f, 7),
            Piece::King => spec_king_moves(b, f),
        },
    }
}

/// What holds of every generated destination: on the board, distinct
/// from the source, and the move to it is not classified illegal.
pub open spec fn spec_dest_ok(b: Board, f: Pos, t: Pos) -> bool {
    &&& t.valid()
    &&& t != f
    &&& spec_move_type(b, f, t) != MoveType::Illegal
}

/// Every destination of the sequence satisfies `spec_dest_ok`.
pub open spec fn spec_all_dests_ok(b: Board, f: Pos, s: Seq<Pos>) -> bool {
    forall|j: int| 0 <= j < s.len() ==> spec_dest_ok(b, f, #[trigger] s[j])
}

/// Destinations stay good under concatenation.
pub proof fn lemma_dests_ok_concat(b: Board, f: Pos, s1: Seq<Pos>, s2: Seq<Pos>)
    requires
        spec_all_dests_ok(b, f, s1),
        spec_all_dests_ok(b, f, s2),
    ensures
        spec_all_dests_ok(b, f, s1 + s2),
{
    assert forall|j: int| 0 <= j < (s1 + s2).len() implies spec_dest_ok(b, f, (s1 + s2)[j]) by {
        if j < s1.len() {
            assert((s1 + s2)[j] == s1[j]);
        } else {
            assert((s1 + s2)[j] == s2[j - s1.len()]);
        }
    }
}

/// Every square a ray emits is on the board, differs from the source,
/// and holds no piece of the mover's side.
pub proof fn lemma_arm_elems(b: Board, f: Pos, dc: int, dr: int, max_len: int, i: int)
    requires
        f.valid(),
        1 <= i,
    ensures
        spec_all_dests_ok(b, f, spec_arm(b, f, dc, dr, max_len, i)),
    decreases max_len - i + 1,
{
    if i > max_len {
    } else {
        match spec_pos_at(f.col as int + dc * i, f.row as int + dr * i) {
            None => {},
            Some(t_pos) => {
                lemma_arm_elems(b, f, dc, dr, max_len, i + 1);
            },
        }
    }
}

/// The diagonal rays emit only good destinations.
pub proof fn lemma_bishop_elems(b: Board, f: Pos, max_len: int)
    requires
        f.valid(),
    ensures
        spec_all_dests_ok(b, f, spec_bishop_moves(b, f, max_len)),
{
    lemma_arm_elems(b, f, -1, 1, max_len, 1);
    lemma_arm_elems(b, f, 1, 1, max_len, 1);
    lemma_arm_elems(b, f, 1, -1, max_len, 1);
    lemma_arm_elems(b, f, -1, -1, max_len, 1);
    lemma_dests_ok_concat(b, f, spec_arm(b, f, -1, 1, max_len, 1), spec_arm(b, f, 1, 1, max_len, 1));
    lemma_dests_ok_concat(
        b,
        f,
        spec_arm(b, f, -1, 1, max_len, 1) + spec_arm(b, f, 1, 1, max_len, 1),
        spec_arm(b, f, 1, -1, max_len, 1),
    );
    lemma_dests_ok_concat(
        b,
        f,
        spec_arm(b, f, -1, 1, max_len, 1) + spec_arm(b, f, 1, 1, max_len, 1) + spec_arm(
            b,
            f,
            1,
            -1,
            max_len,
            1,
        ),
        spec_arm(b, f, -1, -1, max_len, 1),
    );
}

/// The orthogonal rays emit only good destinations.
pub proof fn lemma_rook_elems(b: Board, f: Pos, max_len: int)
    requires
        f.valid(),
    ensures
        spec_all_dests_ok(b, f, spec_rook_moves(b, f, max_len)),
{
    lemma_arm_elems(b, f, 0, 1, max_len, 1);
    lemma_arm_elems(b, f, 1, 0, max_len, 1);
    lemma_arm_elems(b, f, 0, -1, max_len, 1);
    lemma_arm_elems(b, f, -1, 0, max_len, 1);
    lemma_dests_ok_concat(b, f, spec_arm(b, f, 0, 1, max_len, 1), spec_arm(b, f, 1, 0, max_len, 1));
    lemma_dests_ok_concat(
        b,
        f,
        spec_arm(b, f, 0, 1, max_len, 1) + spec_arm(b, f, 1, 0, max_len, 1),
        spec_arm(b, f, 0, -1, max_len, 1),
    );
    lemma_dests_ok_concat(
        b,
        f,
        spec_arm(b, f, 0, 1, max_len, 1) + spec_arm(b, f, 1, 0, max_len, 1) + spec_arm(
            b,
            f,
            0,
            -1,
            max_len,
            1,
        ),
        spec_arm(b, f, -1, 0, max_len, 1),
    );
}

/// The pawn's moves emit only good destinations.
#[verifier::rlimit(60)]
pub proof fn lemma_pawn_elems(b: Board, f: Pos)
    requires
        f.valid(),
    ensures
        spec_all_dests_ok(b, f, spec_pawn_moves(b, f)),
{
}

/// The knight's leaps emit only good destinations.
#[verifier::rlimit(60)]
pub proof fn lemma_knight_elems(b: Board, f: Pos)
    requires
        f.valid(),
    ensures
        spec_all_dests_ok(b, f, spec_knight_moves(b, f)),
{
}

/// The king's steps and castling candidates emit only good
/// destinations.
#[verifier::rlimit(60)]
pub proof fn lemma_king_elems(b: Board, f: Pos)
    requires
        f.valid(),
        b.spec_at(f) is Some,
    ensures
        spec_all_dests_ok(b, f, spec_king_moves(b, f)),
{
    lemma_bishop_elems(b, f, 1);
    lemma_rook_elems(b, f, 1);
    lemma_dests_ok_concat(b, f, spec_bishop_moves(b, f, 1), spec_rook_moves(b, f, 1));
    assert(spec_all_dests_ok(b, f, spec_castle_cand(b, f, 2)));
    assert(spec_all_dests_ok(b, f, spec_castle_cand(b, f, 6)));
    lemma_dests_ok_concat(
        b,
        f,
        spec_bishop_moves(b, f, 1) + spec_rook_moves(b, f, 1),
        spec_castle_cand(b, f, 2),
    );
    lemma_dests_ok_concat(
        b,
        f,
        spec_bishop_moves(b, f, 1) + spec_rook_moves(b, f, 1) + spec_castle_cand(b, f, 2),
        spec_castle_cand(b, f, 6),
    );
}

/// Every pseudo-legal destination is on the board, differs from the
/// source, and the move to it is not classified illegal.
pub proof fn lemma_gen_moves_elems(b: Board, f: Pos)
    requires
        f.valid(),
    ensures
        spec_all_dests_ok(b, f, spec_gen_moves(b, f)),
{
    match b.spec_at(f) {
        None => {},
        Some(ft) => match ft.piece {
            Piece::Pawn => {
                lemma_pawn_elems(b, f);
            },
            Piece::Knight => {
                lemma_knight_elems(b, f);
            },
            Piece::Bishop => {
                lemma_bishop_elems(b, f, 7);
            },
            Piece::Rook => {
                lemma_rook_elems(b, f, 7);
            },
            Piece::Queen => {
                lemma_bishop_elems(b, f, 7);
                lemma_rook_elems(b, f, 7);
                lemma_dests_ok_concat(b, f, spec_bishop_moves(b, f, 7), spec_rook_moves(b, f, 7));
            },
            Piece::King => {
                lemma_king_elems(b, f);
            },
        },
    }
}

impl Board {
    /// Walks one ray: emits empty squares in direction `(dc, dr)` and
    /// stops at the edge, before an own piece, or on an enemy piece.
    pub fn generate_arm(&self, moves: &mut Vec<Pos>, f_pos: Pos, max_len: i8, dc: i8, dr: i8)
        requires
            f_pos.valid(),
            -1 <= dc <= 1,
            -1 <= dr <= 1,
            0 <= max_len <= 7,
        ensures
            final(moves)@ == old(moves)@ + spec_arm(*self, f_pos, dc as int, dr as int, max_len as int, 1),
    {
        let base = moves.len();
        let mut i: i8 = 1;
        let mut stop: bool = false;
        while !stop && i <= max_len
            invariant
                f_pos.valid(),
                -1 <= dc <= 1,
                -1 <= dr <= 1,
                0 <= max_len <= 7,
                1 <= i <= max_len + 1,
                base == old(moves)@.len(),
                moves@.len() >= base,
                moves@.take(base as int) == old(moves)@,
                !stop ==> spec_arm(*self, f_pos, dc as int, dr as int, max_len as int, 1)
                    == moves@.skip(base as int) + spec_arm(
                    *self,
                    f_pos,
                    dc as int,
                    dr as int,
                    max_len as int,
                    i as int,
                ),
                stop ==> spec_arm(*self, f_pos, dc as int, dr as int, max_len as int, 1)
                    == moves@.skip(base as int),
            decreases max_len - i + 1, (if stop { 0int } else { 1int }),
        {
            proof {
                assert(-8 <= dc as int * i as int <= 8) by (nonlinear_arith)
                    requires
                        -1 <= dc <= 1,
                        1 <= i <= 8,
                ;
                assert(-8 <= dr as int * i as int <= 8) by (nonlinear_arith)
                    requires
                        -1 <= dr <= 1,
                        1 <= i <= 8,
                ;
            }
            let c = f_pos.col + dc * i;
            let r = f_pos.row + dr * i;
            let ghost pre = moves@;
            let ghost ii = i as int;
            match Pos::at(c, r) {
                None => {
                    stop = true;
                    proof {
                        assert(spec_arm(*self, f_pos, dc as int, dr as int, max_len as int, ii)
                            =~= Seq::<Pos>::empty());
                        assert(spec_arm(*self, f_pos, dc as int, dr as int, max_len as int, 1)
                            =~= moves@.skip(base as int));
                    }
                },
                Some(t_pos) => {
                    match self.move_type(f_pos, t_pos) {
                        MoveType::Move => {
                            moves.push(t_pos);
                            proof {
                                assert(spec_arm(
                                    *self,
                                    f_pos,
                                    dc as int,
                                    dr as int,
                                    max_len as int,
                                    ii,
                                ) == seq![t_pos] + spec_arm(
                                    *self,
                                    f_pos,
                                    dc as int,
                                    dr as int,
                                    max_len as int,
                                    ii + 1,
                                ));
                                assert(moves@.skip(base as int) =~= pre.skip(base as int) + seq![
                                    t_pos,
                                ]);
                                assert(spec_arm(*self, f_pos, dc as int, dr as int, max_len as int, 1)
                                    =~= moves@.skip(base as int) + spec_arm(
                                    *self,
                                    f_pos,
                                    dc as int,
                                    dr as int,
                                    max_len as int,
                                    ii + 1,
                                ));
                            }
                        },
                        MoveType::Capture(_) => {
                            moves.push(t_pos);
                            stop = true;
                            proof {
                                assert(spec_arm(
                                    *self,
                                    f_pos,
                                    dc as int,
                                    dr as int,
                                    max_len as int,
                                    ii,
                                ) == seq![t_pos]);
                                assert(moves@.skip(base as int) =~= pre.skip(base as int) + seq![
                                    t_pos,
                                ]);
                                assert(spec_arm(*self, f_pos, dc as int, dr as int, max_len as int, 1)
                                    =~= moves@.skip(base as int));
                            }
                        },
                        MoveType::Illegal => {
                            stop = true;
                            proof {
                                assert(spec_arm(
                                    *self,
                                    f_pos,
                                    dc as int,
                                    dr as int,
                                    max_len as int,
                                    ii,
                                ) =~= Seq::<Pos>::empty());
                                assert(spec_arm(*self, f_pos, dc as int, dr as int, max_len as int, 1)
                                    =~= moves@.skip(base as int));
                            }
                        },
                    }
                },
            }
            proof {
                assert(moves@.take(base as int) =~= old(moves)@);
            }
            i = i + 1;
        }
        proof {
            if !stop {
                assert(spec_arm(*self, f_pos, dc as int, dr as int, max_len as int, i as int)
                    =~= Seq::<Pos>::empty());
            }
            assert(moves@ =~= moves@.take(base as int) + moves@.skip(base as int));
        }
    }
}

impl Board {
    /// The four diagonal rays from `f_pos`, up to `max_len` steps.
    pub fn generate_bishop(&self, moves: &mut Vec<Pos>, f_pos: Pos, max_len: i8)
        requires
            f_pos.valid(),
            0 <= max_len <= 7,
        ensures
            final(moves)@ == old(moves)@ + spec_bishop_moves(*self, f_pos, max_len as int),
    {
        self.generate_arm(moves, f_pos, max_len, -1, 1);
        self.generate_arm(moves, f_pos, max_len, 1, 1);
        self.generate_arm(moves, f_pos, max_len, 1, -1);
        self.generate_arm(moves, f_pos, max_len, -1, -1);
        proof {
            assert(moves@ =~= old(moves)@ + spec_bishop_moves(*self, f_pos, max_len as int));
        }
    }

    /// The four orthogonal rays from `f_pos`, up to `max_len` steps.
    pub fn generate_rook(&self, moves: &mut Vec<Pos>, f_pos: Pos, max_len: i8)
        requires
            f_pos.valid(),
            0 <= max_len <= 7,
        ensures
            final(moves)@ == old(moves)@ + spec_rook_moves(*self, f_pos, max_len as int),
    {
        self.generate_arm(moves, f_pos, max_len, 0, 1);
        self.generate_arm(moves, f_pos, max_len, 1, 0);
        self.generate_arm(moves, f_pos, max_len, 0, -1);
        self.generate_arm(moves, f_pos, max_len, -1, 0);
        proof {
            assert(moves@ =~= old(moves)@ + spec_rook_moves(*self, f_pos, max_len as int));
        }
    }

    /// Diagonal and orthogonal rays together.
    pub fn generate_queen(&self, moves: &mut Vec<Pos>, f_pos: Pos, max_len: i8)
        requires
            f_pos.valid(),
            0 <= max_len <= 7,
        ensures
            final(moves)@ == old(moves)@ + spec_queen_moves(*self, f_pos, max_len as int),
    {
        self.generate_bishop(moves, f_pos, max_len);
        self.generate_rook(moves, f_pos, max_len);
        proof {
            assert(moves@ =~= old(moves)@ + spec_queen_moves(*self, f_pos, max_len as int));
        }
    }

    /// One knight-leap candidate.
    fn knight_try(&self, moves: &mut Vec<Pos>, f_pos: Pos, dc: i8, dr: i8)
        requires
            f_pos.valid(),
            -2 <= dc <= 2,
            -2 <= dr <= 2,
        ensures
            final(moves)@ == old(moves)@ + spec_knight_cand(*self, f_pos, dc as int, dr as int),
    {
        if let Some(t_pos) = Pos::at(f_pos.col + dc, f_pos.row + dr) {
            if self.move_type(f_pos, t_pos) != MoveType::Illegal {
                moves.push(t_pos);
                proof {
                    assert(moves@ =~= old(moves)@ + spec_knight_cand(
                        *self,
                        f_pos,
                        dc as int,
                        dr as int,
                    ));
                }
                return ;
            }
        }
        proof {
            assert(moves@ =~= old(moves)@ + spec_knight_cand(*self, f_pos, dc as int, dr as int));
        }
    }

    /// The eight knight leaps from `f_pos`.
    #[verifier::rlimit(100)]
    pub fn generate_knight(&self, moves: &mut Vec<Pos>, f_pos: Pos)
        requires
            f_pos.valid(),
        ensures
            final(moves)@ == old(moves)@ + spec_knight_moves(*self, f_pos),
    {
        let ghost m0 = moves@;
        let ghost b = *self;
        self.knight_try(moves, f_pos, -1, -2);
        self.knight_try(moves, f_pos, -1, 2);
        proof {
            assert(moves@ =~= m0 + (spec_knight_cand(b, f_pos, -1, -2) + spec_knight_cand(
                b,
                f_pos,
                -1,
                2,
            )));
        }
        let ghost p2 = spec_knight_cand(b, f_pos, -1, -2) + spec_knight_cand(b, f_pos, -1, 2);
        self.knight_try(moves, f_pos, 1, -2);
        proof {
            assert(moves@ =~= m0 + (p2 + spec_knight_cand(b, f_pos, 1, -2)));
        }
        let ghost p3 = p2 + spec_knight_cand(b, f_pos, 1, -2);
        self.knight_try(moves, f_pos, 1, 2);
        proof {
            assert(moves@ =~= m0 + (p3 + spec_knight_cand(b, f_pos, 1, 2)));
        }
        let ghost p4 = p3 + spec_knight_cand(b, f_pos, 1, 2);
        self.knight_try(moves, f_pos, -2, -1);
        proof {
            assert(moves@ =~= m0 + (p4 + spec_knight_cand(b, f_pos, -2, -1)));
        }
        let ghost p5 = p4 + spec_knight_cand(b, f_pos, -2, -1);
        self.knight_try(moves, f_pos, -2, 1);
        proof {
            assert(moves@ =~= m0 + (p5 + spec_knight_cand(b, f_pos, -2, 1)));
        }
        let ghost p6 = p5 + spec_knight_cand(b, f_pos, -2, 1);
        self.knight_try(moves, f_pos, 2, -1);
        proof {
            assert(moves@ =~= m0 + (p6 + spec_knight_cand(b, f_pos, 2, -1)));
        }
        let ghost p7 = p6 + spec_knight_cand(b, f_pos, 2, -1);
        self.knight_try(moves, f_pos, 2, 1);
        proof {
            assert(moves@ =~= m0 + (p7 + spec_knight_cand(b, f_pos, 2, 1)));
            assert(p7 + spec_knight_cand(b, f_pos, 2, 1) == spec_knight_moves(b, f_pos));
        }
    }

    /// The pawn's moves from `f_pos`: forward pushes and diagonal
    /// captures.
    pub fn generate_pawn(&self, moves: &mut Vec<Pos>, f_pos: Pos)
        requires
            f_pos.valid(),
        ensures
            final(moves)@ == old(moves)@ + spec_pawn_moves(*self, f_pos),
    {
        if let Some(f_tile) = self.at(f_pos) {
            let dr: i8 = if f_tile.color == Color::White {
                1
            } else {
                -1
            };
            let start_row: i8 = if f_tile.color == Color::White {
                1
            } else {
                6
            };

            // Forward by one, and by two from the starting rank.
            if let Some(t_pos) = Pos::at(f_pos.col, f_pos.row + dr) {
                if self.move_type(f_pos, t_pos) == MoveType::Move {
                    moves.push(t_pos);
                    if f_pos.row == start_row {
                        if let Some(t2_pos) = Pos::at(f_pos.col, f_pos.row + 2 * dr) {
                            if self.move_type(f_pos, t2_pos) == MoveType::Move {
                                moves.push(t2_pos);
                            }
                        }
                    }
                }
            }
            // Capture diagonally.
            if let Some(t_pos) = Pos::at(f_pos.col - 1, f_pos.row + dr) {
                if let MoveType::Capture(_) = self.move_type(f_pos, t_pos) {
                    moves.push(t_pos);
                }
            }
            if let Some(t_pos) = Pos::at(f_pos.col + 1, f_pos.row + dr) {
                if let MoveType::Capture(_) = self.move_type(f_pos, t_pos) {
                    moves.push(t_pos);
                }
            }
        }
        proof {
            assert(moves@ =~= old(moves)@ + spec_pawn_moves(*self, f_pos));
        }
    }

    /// The king's moves from `f_pos`: one step in each direction, and
    /// the castling candidates of the side to move.
    pub fn generate_king(&self, moves: &mut Vec<Pos>, f_pos: Pos)
        requires
            self.wf(),
            f_pos.valid(),
        ensures
            final(moves)@ == old(moves)@ + spec_king_moves(*self, f_pos),
    {
        self.generate_bishop(moves, f_pos, 1);
        self.generate_rook(moves, f_pos, 1);

        let rank: i8 = if self.player == Color::White {
            0
        } else {
            7
        };

        // Queen-side castling candidate.
        if self.can_castle_qs[self.player.idx()] {
            if f_pos.row == rank && f_pos.col == 4 && self.at(
                Pos { row: rank, col: 1 },
            ).is_none() && self.at(Pos { row: rank, col: 2 }).is_none() && self.at(
                Pos { row: rank, col: 3 },
            ).is_none() && self.rook_on(Pos { row: rank, col: 0 }) && !self.is_king_in_check(
                self.player,
            ) {
                moves.push(Pos { row: rank, col: 2 });
            }
        }
        // King-side castling candidate.
        if self.can_castle_ks[self.player.idx()] {
            if f_pos.row == rank && f_pos.col == 4 && self.at(
                Pos { row: rank, col: 5 },
            ).is_none() && self.at(Pos { row: rank, col: 6 }).is_none() && self.rook_on(
                Pos { row: rank, col: 7 },
            ) && !self.is_king_in_check(self.player) {
                moves.push(Pos { row: rank, col: 6 });
            }
        }
        proof {
            assert(moves@ =~= old(moves)@ + spec_king_moves(*self, f_pos));
        }
    }

    /// Does a rook of the side to move stand on the given square?
    fn rook_on(&self, p: Pos) -> (r: bool)
        requires
            p.valid(),
        ensures
            r == (self.spec_at(p) == Some(Tile { piece: Piece::Rook, color: self.player })),
    {
        match self.at(p) {
            Some(t) => t.piece == Piece::Rook && t.color == self.player,
            None => false,
        }
    }

    /// Every pseudo-legal destination of the piece standing on
    /// `f_pos`, dispatched on its kind.
    pub fn generate(&self, f_pos: Pos) -> (r: Vec<Pos>)
        requires
            self.wf(),
            f_pos.valid(),
        ensures
            r@ == spec_gen_moves(*self, f_pos),
    {
        let mut moves: Vec<Pos> = Vec::new();

        if let Some(f_tile) = self.at(f_pos) {
            match f_tile.piece {
                Piece::Pawn => self.generate_pawn(&mut moves, f_pos),
                Piece::Knight => self.generate_knight(&mut moves, f_pos),
                Piece::Bishop => self.generate_bishop(&mut moves, f_pos, 7),
                Piece::Rook => self.generate_rook(&mut moves, f_pos, 7),
                Piece::Queen => self.generate_queen(&mut moves, f_pos, 7),
                Piece::King => self.generate_king(&mut moves, f_pos),
            }
        }
        proof {
            assert(moves@ =~= spec_gen_moves(*self, f_pos));
        }
        moves
    }
}

/// Is the destination one step away in both coordinates?
pub open spec fn spec_close_to(f: Pos, t: Pos) -> bool {
    -1 <= t.col - f.col <= 1 && -1 <= t.row - f.row <= 1
}

/// Every element of the sequence is one step away from `f`.
pub open spec fn spec_all_close(f: Pos, s: Seq<Pos>) -> bool {
    forall|j: int| 0 <= j < s.len() ==> spec_close_to(f, #[trigger] s[j])
}

/// What a castling candidate guarantees about its destination.
pub open spec fn spec_castle_fact(b: Board, f: Pos, t: Pos) -> bool {
    let rank = back_rank(b.player);
    &&& f == (Pos { row: rank as i8, col: 4 })
    &&& (t == (Pos { row: rank as i8, col: 2 }) && b.tiles[rank][1] is None && b.tiles[rank][2]
        is None && b.tiles[rank][3] is None && b.tiles[rank][0] == Some(
        Tile { piece: Piece::Rook, color: b.player },
    )) || (t == (Pos { row: rank as i8, col: 6 }) && b.tiles[rank][5] is None && b.tiles[rank][6]
        is None && b.tiles[rank][7] == Some(Tile { piece: Piece::Rook, color: b.player }))
}

/// A length-one ray stays one step away from its source.
pub proof fn lemma_arm1_close(b: Board, f: Pos, dc: int, dr: int)
    requires
        -1 <= dc <= 1,
        -1 <= dr <= 1,
    ensures
        spec_all_close(f, spec_arm(b, f, dc, dr, 1, 1)),
{
    assert(spec_arm(b, f, dc, dr, 1, 2) =~= Seq::<Pos>::empty());
}

/// Every king move is one step away or a castling candidate with its
/// guarantees.
#[verifier::rlimit(100)]
pub proof fn lemma_king_move_shape(b: Board, f: Pos)
    requires
        f.valid(),
    ensures
        forall|j: int|
            0 <= j < spec_king_moves(b, f).len() ==> spec_close_to(
                f,
                #[trigger] spec_king_moves(b, f)[j],
            ) || spec_castle_fact(b, f, spec_king_moves(b, f)[j]),
{
    lemma_arm1_close(b, f, -1, 1);
    lemma_arm1_close(b, f, 1, 1);
    lemma_arm1_close(b, f, 1, -1);
    lemma_arm1_close(b, f, -1, -1);
    lemma_arm1_close(b, f, 0, 1);
    lemma_arm1_close(b, f, 1, 0);
    lemma_arm1_close(b, f, 0, -1);
    lemma_arm1_close(b, f, -1, 0);
    let steps = spec_bishop_moves(b, f, 1) + spec_rook_moves(b, f, 1);
    assert(spec_all_close(f, steps));
    assert forall|j: int| 0 <= j < spec_king_moves(b, f).len() implies spec_close_to(
        f,
        spec_king_moves(b, f)[j],
    ) || spec_castle_fact(b, f, spec_king_moves(b, f)[j]) by {
        let s = spec_king_moves(b, f);
        if j < steps.len() {
            assert(s[j] == steps[j]);
        } else if j < steps.len() + spec_castle_cand(b, f, 2).len() {
            assert(s[j] == spec_castle_cand(b, f, 2)[j - steps.len()]);
        } else {
            assert(s[j] == spec_castle_cand(b, f, 6)[j - steps.len() - spec_castle_cand(
                b,
                f,
                2,
            ).len()]);
        }
    }
}

/// A pseudo-legal destination that is no king square gives a move that
/// `clone_apply_move` accepts.
pub proof fn lemma_gen_move_ok(b: Board, f: Pos, j: int, mv: Move)
    requires
        b.wf(),
        f.valid(),
        0 <= j < spec_gen_moves(b, f).len(),
        mv.f_pos == f,
        mv.t_pos == spec_gen_moves(b, f)[j],
        mv.t_pos != b.king_pos[0],
        mv.t_pos != b.king_pos[1],
    ensures
        spec_move_ok(b, mv),
{
    lemma_gen_moves_elems(b, f);
    let t = mv.t_pos;
    assert(spec_dest_ok(b, f, t));
    assert(b.spec_at(f) is Some);
    let ft = b.spec_at(f).unwrap();
    match crate::board::spec_castle_slide(b, mv) {
        Some((row, fc, tc)) => {
            // Only a castling candidate moves a king two files.
            assert(crate::board::spec_moved_tile(b, mv).piece == Piece::King);
            assert(ft.piece == Piece::King);
            lemma_king_move_shape(b, f);
            assert(spec_castle_fact(b, f, t));
            assert(ft.color == b.player);
            let rank = back_rank(b.player);
            let corner = Pos { row: row as i8, col: fc as i8 };
            assert(b.tiles[row][fc] == Some(Tile { piece: Piece::Rook, color: b.player }));
            if corner == b.king_pos[0] || corner == b.king_pos[1] {
                assert(corner.valid());
                assert(false);
            }
        },
        None => {},
    }
}

/// The entries contributed by the destinations `ts[i..]` of the piece
/// on `f`: each destination that is no king square and whose resulting
/// board leaves the mover's king safe yields one `(move, board)` pair,
/// promotion marked when a pawn reaches its last rank.
pub open spec fn spec_entries_from(b: Board, f: Pos, ts: Seq<Pos>, i: int) -> Seq<(Move, Board)>
    decreases ts.len() - i,
{
    if i < 0 || i >= ts.len() {
        Seq::empty()
    } else {
        let t = ts[i];
        let ft = b.spec_at(f).unwrap();
        let promo: Option<Piece> = if ft.piece == Piece::Pawn && t.row as int == last_rank(
            ft.color,
        ) {
            Some(Piece::Queen)
        } else {
            None
        };
        let mv = Move { f_pos: f, t_pos: t, promotion: promo };
        let child = crate::evaluation::spec_stored_board(spec_apply_move(b, mv));
        let rest = spec_entries_from(b, f, ts, i + 1);
        if t != b.king_pos[0] && t != b.king_pos[1] && !spec_in_check(child, b.player) {
            seq![(mv, child)] + rest
        } else {
            rest
        }
    }
}

/// The legal moves of the piece on the square in column `c`, row `r`,
/// when it belongs to the side to move.
pub open spec fn spec_square_moves(b: Board, c: int, r: int) -> Seq<(Move, Board)> {
    match b.tiles[r][c] {
        Some(ft) => if ft.color == b.player {
            let f = Pos { row: r as i8, col: c as i8 };
            spec_entries_from(b, f, spec_gen_moves(b, f), 0)
        } else {
            Seq::empty()
        },
        None => Seq::empty(),
    }
}

/// The legal moves of the squares from index `idx` on, the squares
/// walked column by column.
pub open spec fn spec_gen_all_from(b: Board, idx: int) -> Seq<(Move, Board)>
    decreases 64 - idx,
{
    if idx < 0 || idx >= 64 {
        Seq::empty()
    } else {
        spec_square_moves(b, idx / 8, idx % 8) + spec_gen_all_from(b, idx + 1)
    }
}

/// Every legal move of the side to move, each with the board it leads
/// to.
pub open spec fn spec_generate_all(b: Board) -> Seq<(Move, Board)> {
    spec_gen_all_from(b, 0)
}

impl Board {
    /// Every legal move of the side to move, paired with the board it
    /// leads to: pseudo-legal moves whose resulting board leaves the
    /// mover's own king out of check. Moves onto a king square are
    /// never emitted. Each returned board carries its static
    /// evaluation in the memo slot.
    #[verifier::rlimit(100)]
    pub fn generate_all(&self) -> (r: Vec<(Move, Board)>)
        requires
            self.wf(),
        ensures
            r@ == spec_generate_all(*self),
    {
        let mut all_moves: Vec<(Move, Board)> = Vec::new();
        let mut c: usize = 0;
        while c < 8
            invariant
                self.wf(),
                c <= 8,
                spec_generate_all(*self) == all_moves@ + spec_gen_all_from(*self, c as int * 8),
            decreases 8 - c,
        {
            let mut r: usize = 0;
            while r < 8
                invariant
                    self.wf(),
                    c < 8,
                    r <= 8,
                    spec_generate_all(*self) == all_moves@ + spec_gen_all_from(
                        *self,
                        c as int * 8 + r as int,
                    ),
                decreases 8 - r,
            {
                let ghost idx: int = c as int * 8 + r as int;
                proof {
                    assert(idx / 8 == c as int && idx % 8 == r as int) by (nonlinear_arith)
                        requires
                            0 <= c < 8,
                            0 <= r < 8,
                            idx == c as int * 8 + r as int,
                    ;
                }
                let f_pos = Pos { row: r as i8, col: c as i8 };
                if let Some(f_tile) = self.at(f_pos) {
                    if f_tile.color == self.player {
                        let moves = self.generate(f_pos);
                        let mut k: usize = 0;
                        while k < moves.len()
                            invariant
                                self.wf(),
                                f_pos.valid(),
                                self.spec_at(f_pos) == Some(f_tile),
                                f_tile.color == self.player,
                                moves@ == spec_gen_moves(*self, f_pos),
                                k <= moves@.len(),
                                spec_generate_all(*self) == all_moves@ + spec_entries_from(
                                    *self,
                                    f_pos,
                                    moves@,
                                    k as int,
                                ) + spec_gen_all_from(*self, idx + 1),
                            decreases moves@.len() - k,
                        {
                            let t_pos = moves[k];
                            proof {
                                crate::generation::lemma_gen_moves_elems(*self, f_pos);
                            }
                            if t_pos != self.king_pos[0] && t_pos != self.king_pos[1] {
                                let promotion: Option<Piece> = if f_tile.piece == Piece::Pawn && ((
                                f_tile.color == Color::Black && t_pos.row == 0) || (f_tile.color
                                    == Color::White && t_pos.row == 7)) {
                                    // Promotion is always to a queen.
                                    Some(Piece::Queen)
                                } else {
                                    None
                                };
                                let mv = Move { f_pos, t_pos, promotion };
                                proof {
                                    lemma_gen_move_ok(*self, f_pos, k as int, mv);
                                }
                                let mut b1 = self.clone_apply_move(&mv);
                                // Fill the fresh board's memo slot, so
                                // ordering keys and search leaves read
                                // it back instead of recomputing.
                                let _ = b1.value_memo();
                                if !b1.is_king_in_check(self.player) {
                                    all_moves.push((mv, b1));
                                }
                            }
                            proof {
                                assert(spec_generate_all(*self) =~= all_moves@ + spec_entries_from(
                                    *self,
                                    f_pos,
                                    moves@,
                                    k as int + 1,
                                ) + spec_gen_all_from(*self, idx + 1));
                            }
                            k = k + 1;
                        }
                    }
                }
                proof {
                    assert(spec_generate_all(*self) =~= all_moves@ + spec_gen_all_from(
                        *self,
                        idx + 1,
                    ));
                }
                r = r + 1;
            }
            c = c + 1;
        }
        proof {
            assert(all_moves@ =~= spec_generate_all(*self));
        }
        all_moves
    }
}

/// An element of the right part of a concatenation is in the whole.
pub proof fn lemma_contains_right<A>(s1: Seq<A>, s2: Seq<A>, e: A)
    requires
        s2.contains(e),
    ensures
        (s1 + s2).contains(e),
{
    let j = choose|j: int| 0 <= j < s2.len() && s2[j] == e;
    assert((s1 + s2)[s1.len() + j] == e);
}

/// An element of the left part of a concatenation is in the whole.
pub proof fn lemma_contains_left<A>(s1: Seq<A>, s2: Seq<A>, e: A)
    requires
        s1.contains(e),
    ensures
        (s1 + s2).contains(e),
{
    let j = choose|j: int| 0 <= j < s1.len() && s1[j] == e;
    assert((s1 + s2)[j] == e);
}

/// What is true of every entry the generator emits: it moves a piece
/// of the side to move along its pseudo-legal geometry to a square
/// holding no king, and the paired board is the move applied, leaving
/// the mover's king out of check.
pub open spec fn spec_entry_sound(b: Board, e: (Move, Board)) -> bool {
    &&& e.0.f_pos.valid()
    &&& match b.spec_at(e.0.f_pos) {
        Some(ft) => ft.color == b.player,
        None => false,
    }
    &&& exists|j: int|
        0 <= j < spec_gen_moves(b, e.0.f_pos).len() && spec_gen_moves(b, e.0.f_pos)[j]
            == e.0.t_pos
    &&& e.0.t_pos != b.king_pos[0]
    &&& e.0.t_pos != b.king_pos[1]
    &&& e.1 == crate::evaluation::spec_stored_board(spec_apply_move(b, e.0))
    &&& !spec_in_check(e.1, b.player)
}

proof fn lemma_entries_sound(b: Board, f: Pos, ts: Seq<Pos>, i: int)
    requires
        f.valid(),
        b.spec_at(f) is Some,
        b.spec_at(f).unwrap().color == b.player,
        ts == spec_gen_moves(b, f),
    ensures
        forall|k: int|
            0 <= k < spec_entries_from(b, f, ts, i).len() ==> spec_entry_sound(
                b,
                #[trigger] spec_entries_from(b, f, ts, i)[k],
            ),
    decreases ts.len() - i,
{
    if i < 0 || i >= ts.len() {
    } else {
        lemma_entries_sound(b, f, ts, i + 1);
        let t = ts[i];
        let ft = b.spec_at(f).unwrap();
        let promo: Option<Piece> = if ft.piece == Piece::Pawn && t.row as int == last_rank(
            ft.color,
        ) {
            Some(Piece::Queen)
        } else {
            None
        };
        let mv = Move { f_pos: f, t_pos: t, promotion: promo };
        let child = crate::evaluation::spec_stored_board(spec_apply_move(b, mv));
        let rest = spec_entries_from(b, f, ts, i + 1);
        if t != b.king_pos[0] && t != b.king_pos[1] && !spec_in_check(child, b.player) {
            assert(spec_entries_from(b, f, ts, i) == seq![(mv, child)] + rest);
            assert forall|k: int|
                0 <= k < spec_entries_from(b, f, ts, i).len() implies spec_entry_sound(
                b,
                spec_entries_from(b, f, ts, i)[k],
            ) by {
                if k == 0 {
                    assert(spec_entries_from(b, f, ts, i)[0] == (mv, child));
                    assert(spec_gen_moves(b, f)[i] == t);
                } else {
                    assert(spec_entries_from(b, f, ts, i)[k] == rest[k - 1]);
                }
            }
        }
    }
}

proof fn lemma_gen_all_from_sound(b: Board, idx: int)
    requires
        b.wf(),
    ensures
        forall|k: int|
            0 <= k < spec_gen_all_from(b, idx).len() ==> spec_entry_sound(
                b,
                #[trigger] spec_gen_all_from(b, idx)[k],
            ),
    decreases 64 - idx,
{
    if idx < 0 || idx >= 64 {
    } else {
        lemma_gen_all_from_sound(b, idx + 1);
        let c = idx / 8;
        let r = idx % 8;
        let sq = spec_square_moves(b, c, r);
        let rest = spec_gen_all_from(b, idx + 1);
        assert(0 <= c < 8 && 0 <= r < 8) by (nonlinear_arith)
            requires
                0 <= idx < 64,
                c == idx / 8,
                r == idx % 8,
        ;
        match b.tiles[r][c] {
            Some(ft) => {
                if ft.color == b.player {
                    let f = Pos { row: r as i8, col: c as i8 };
                    lemma_entries_sound(b, f, spec_gen_moves(b, f), 0);
                }
            },
            None => {},
        }
        assert forall|k: int|
            0 <= k < spec_gen_all_from(b, idx).len() implies spec_entry_sound(
            b,
            spec_gen_all_from(b, idx)[k],
        ) by {
            if k < sq.len() {
                assert(spec_gen_all_from(b, idx)[k] == sq[k]);
            } else {
                assert(spec_gen_all_from(b, idx)[k] == rest[k - sq.len()]);
            }
        }
    }
}

/// Soundness of the legal-move generator: every emitted entry pairs a
/// pseudo-legal move of the side to move with the board it leads to,
/// and in that board the mover's king is not in check.
pub proof fn lemma_generate_all_sound(b: Board)
    requires
        b.wf(),
    ensures
        forall|k: int|
            0 <= k < spec_generate_all(b).len() ==> spec_entry_sound(
                b,
                #[trigger] spec_generate_all(b)[k],
            ),
        forall|k: int|
            0 <= k < spec_generate_all(b).len() ==> spec_move_ok(
                b,
                (#[trigger] spec_generate_all(b)[k]).0,
            ) && spec_generate_all(b)[k].1.wf(),
{
    lemma_gen_all_from_sound(b, 0);
    assert forall|k: int| 0 <= k < spec_generate_all(b).len() implies spec_move_ok(
        b,
        spec_generate_all(b)[k].0,
    ) && spec_generate_all(b)[k].1.wf() by {
        let e = spec_generate_all(b)[k];
        assert(spec_entry_sound(b, e));
        let j = choose|j: int|
            0 <= j < spec_gen_moves(b, e.0.f_pos).len() && spec_gen_moves(b, e.0.f_pos)[j]
                == e.0.t_pos;
        lemma_gen_move_ok(b, e.0.f_pos, j, e.0);
        crate::board::lemma_apply_move_wf(b, e.0);
        crate::evaluation::lemma_stored_board_wf(spec_apply_move(b, e.0));
    }
}

/// The move the generator builds for the piece on `f` and the
/// destination `spec_gen_moves(b, f)[j]`.
pub open spec fn spec_entry_of(b: Board, f: Pos, j: int) -> (Move, Board) {
    let t = spec_gen_moves(b, f)[j];
    let ft = b.spec_at(f).unwrap();
    let promo: Option<Piece> = if ft.piece == Piece::Pawn && t.row as int == last_rank(ft.color) {
        Some(Piece::Queen)
    } else {
        None
    };
    let mv = Move { f_pos: f, t_pos: t, promotion: promo };
    (mv, crate::evaluation::spec_stored_board(spec_apply_move(b, mv)))
}

proof fn lemma_entries_complete(b: Board, f: Pos, ts: Seq<Pos>, i: int, j: int)
    requires
        f.valid(),
        b.spec_at(f) is Some,
        ts == spec_gen_moves(b, f),
        0 <= i <= j < ts.len(),
        ts[j] != b.king_pos[0],
        ts[j] != b.king_pos[1],
        !spec_in_check(spec_entry_of(b, f, j).1, b.player),
    ensures
        spec_entries_from(b, f, ts, i).contains(spec_entry_of(b, f, j)),
    decreases ts.len() - i,
{
    let t = ts[i];
    let ft = b.spec_at(f).unwrap();
    let promo: Option<Piece> = if ft.piece == Piece::Pawn && t.row as int == last_rank(ft.color) {
        Some(Piece::Queen)
    } else {
        None
    };
    let mv = Move { f_pos: f, t_pos: t, promotion: promo };
    let child = crate::evaluation::spec_stored_board(spec_apply_move(b, mv));
    let rest = spec_entries_from(b, f, ts, i + 1);
    if i == j {
        assert((mv, child) == spec_entry_of(b, f, j));
        assert(spec_entries_from(b, f, ts, i)[0] == (mv, child));
    } else {
        lemma_entries_complete(b, f, ts, i + 1, j);
        if t != b.king_pos[0] && t != b.king_pos[1] && !spec_in_check(child, b.player) {
            lemma_contains_right(seq![(mv, child)], rest, spec_entry_of(b, f, j));
        }
    }
}

proof fn lemma_gen_all_from_complete(b: Board, idx: int, f: Pos, j: int)
    requires
        b.wf(),
        f.valid(),
        b.spec_at(f) is Some,
        b.spec_at(f).unwrap().color == b.player,
        0 <= idx <= f.col as int * 8 + f.row as int,
        0 <= j < spec_gen_moves(b, f).len(),
        spec_gen_moves(b, f)[j] != b.king_pos[0],
        spec_gen_moves(b, f)[j] != b.king_pos[1],
        !spec_in_check(spec_entry_of(b, f, j).1, b.player),
    ensures
        spec_gen_all_from(b, idx).contains(spec_entry_of(b, f, j)),
    decreases 64 - idx,
{
    let target = f.col as int * 8 + f.row as int;
    assert(0 <= target < 64) by (nonlinear_arith)
        requires
            0 <= f.col < 8,
            0 <= f.row < 8,
            target == f.col as int * 8 + f.row as int,
    ;
    let c = idx / 8;
    let r = idx % 8;
    let sq = spec_square_moves(b, c, r);
    let rest = spec_gen_all_from(b, idx + 1);
    if idx == target {
        assert(c == f.col as int && r == f.row as int) by (nonlinear_arith)
            requires
                0 <= f.col < 8,
                0 <= f.row < 8,
                idx == f.col as int * 8 + f.row as int,
                c == idx / 8,
                r == idx % 8,
        ;
        lemma_entries_complete(b, f, spec_gen_moves(b, f), 0, j);
        assert(sq == spec_entries_from(b, f, spec_gen_moves(b, f), 0));
        lemma_contains_left(sq, rest, spec_entry_of(b, f, j));
    } else {
        lemma_gen_all_from_complete(b, idx + 1, f, j);
        lemma_contains_right(sq, rest, spec_entry_of(b, f, j));
    }
}

/// Completeness of the legal-move generator: every pseudo-legal
/// destination of a piece of the side to move that is no king square
/// and whose resulting board leaves the mover's king out of check
/// appears, with that board, among the generated entries.
pub proof fn lemma_generate_all_complete(b: Board, f: Pos, j: int)
    requires
        b.wf(),
        f.valid(),
        b.spec_at(f) is Some,
        b.spec_at(f).unwrap().color == b.player,
        0 <= j < spec_gen_moves(b, f).len(),
        spec_gen_moves(b, f)[j] != b.king_pos[0],
        spec_gen_moves(b, f)[j] != b.king_pos[1],
        !spec_in_check(spec_entry_of(b, f, j).1, b.player),
    ensures
        spec_generate_all(b).contains(spec_entry_of(b, f, j)),
{
    lemma_gen_all_from_complete(b, 0, f, j);
}

} // verus!
