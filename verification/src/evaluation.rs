//! Static evaluation: material plus a positional bonus from the
//! "Simplified Evaluation Function" piece-square tables, scored from
//! White's perspective and clamped to stay below mate magnitude.

use vstd::prelude::*;

use crate::board::{Board, Color, Piece, Tile};

verus! {

/// The evaluator's unit: centipawns, positive when White is better.
pub type Value = i16;

/// Everything the evaluator scores short of mate fits well inside this
/// bound, and mate scores dominate it.
pub const VALUE_LIMIT: i16 = 30000;

/* Value of each piece, indexed by `Piece::idx`. */
pub const MG: [Value; 6] = [100, 320, 330, 500, 900, 20000];

/* Pawn positional bonus */
pub const MG_POS_BONUS_PAWN: [[Value; 8]; 8] = [
    [0, 0, 0, 0, 0, 0, 0, 0],
    [5, 10, 10, -20, -20, 10, 10, 5],
    [5, -5, -10, 0, 0, -10, -5, -5],
    [0, 0, 0, 20, 20, 0, 0, 0],
    [5, 5, 10, 25, 25, 10, 5, 5],
    [10, 10, 20, 30, 30, 20, 10, 10],
    [50, 50, 50, 50, 50, 50, 50, 50],
    [0, 0, 0, 0, 0, 0, 0, 0],
];

/* Knight positional bonus */
pub const MG_POS_BONUS_KNIGHT: [[Value; 8]; 8] = [
    [-50, -40, -30, -30, -30, -30, -40, -50],
    [-40, -20, 0, 0, 0, 0, -20, -40],
    [-30, 0, 10, 15, 15, 10, 0, -30],
    [-30, 5, 15, 20, 20, 15, 5, -30],
    [-30, 0, 15, 20, 20, 15, 0, -30],
    [-30, 5, 10, 15, 15, 10, 5, -30],
    [-40, -20, 0, 5, 5, 0, -20, -40],
    [-50, -40, -30, -30, -30, -30, -40, -50],
];

/* Bishop positional bonus */
pub const MG_POS_BONUS_BISHOP: [[Value; 8]; 8] = [
    [-20, -10, -10, -10, -10, -10, -10, -20],
    [-10, 5, 0, 0, 0, 0, 5, -10],
    [-10, 10, 10, 10, 10, 10, 10, -10],
    [-10, 0, 10, 10, 10, 10, 0, -10],
    [-10, 5, 5, 10, 10, 5, 5, -10],
    [-10, 0, 5, 10, 10, 5, 0, -10],
    [-10, 0, 0, 0, 0, 0, 0, -10],
    [-20, -10, -10, -10, -10, -10, -10, -20],
];

/* Rook positional bonus */
pub const MG_POS_BONUS_ROOK: [[Value; 8]; 8] = [
    [0, 0, 0, 5, 5, 0, 0, 0],
    [-5, 0, 0, 0, 0, 0, 0, -5],
    [-5, 0, 0, 0, 0, 0, 0, -5],
    [-5, 0, 0, 0, 0, 0, 0, -5],
    [-5, 0, 0, 0, 0, 0, 0, -5],
    [-5, 0, 0, 0, 0, 0, 0, -5],
    [5, 10, 10, 10, 10, 10, 10, 5],
    [0, 0, 0, 0, 0, 0, 0, 0],
];

/* Queen positional bonus */
pub const MG_POS_BONUS_QUEEN: [[Value; 8]; 8] = [
    [-20, -10, -10, -5, -5, -10, -10, -20],
    [-10, 0, 5, 0, 0, 0, 0, -10],
    [-10, 5, 5, 5, 5, 5, 0, -10],
    [0, 0, 5, 5, 5, 5, 0, -5],
    [-5, 0, 5, 5, 5, 5, 0, -5],
    [-10, 0, 5, 5, 5, 5, 0, -10],
    [-10, 0, 0, 0, 0, 0, 0, -10],
    [-20, -10, -10, -5, -5, -10, -10, -20],
];

/* King positional bonus */
pub const MG_POS_BONUS_KING: [[Value; 8]; 8] = [
    [20, 30, 10, 0, 0, 10, 30, 20],
    [20, 20, 0, 0, 0, 0, 20, 20],
    [-10, -20, -20, -20, -20, -20, -20, -10],
    [-20, -30, -30, -40, -40, -30, -30, -20],
    [-30, -40, -40, -50, -50, -40, -40, -30],
    [-30, -40, -40, -50, -50, -40, -40, -30],
    [-30, -40, -40, -50, -50, -40, -40, -30],
    [-30, -40, -40, -50, -50, -40, -40, -30],
];

/// The material value of a piece kind, in centipawns.
pub open spec fn spec_piece_value(p: Piece) -> int {
    match p {
        Piece::Pawn => 100,
        Piece::Knight => 320,
        Piece::Bishop => 330,
        Piece::Rook => 500,
        Piece::Queen => 900,
        Piece::King => 20000,
    }
}

/// The positional bonus of a piece kind standing on `(row, col)`,
/// read from White's perspective.
pub open spec fn spec_bonus(p: Piece, row: int, col: int) -> int {
    match p {
        Piece::Pawn => MG_POS_BONUS_PAWN[row][col] as int,
        Piece::Knight => MG_POS_BONUS_KNIGHT[row][col] as int,
        Piece::Bishop => MG_POS_BONUS_BISHOP[row][col] as int,
        Piece::Rook => MG_POS_BONUS_ROOK[row][col] as int,
        Piece::Queen => MG_POS_BONUS_QUEEN[row][col] as int,
        Piece::King => MG_POS_BONUS_KING[row][col] as int,
    }
}

/// The contribution of the square in column `c`, row `r`: material plus
/// table bonus, positive for White and negative for Black, the table
/// being read with both coordinates mirrored for Black.
pub open spec fn spec_contribution(b: Board, c: int, r: int) -> int {
    match b.tiles[r][c] {
        None => 0,
        Some(t) => match t.color {
            Color::Black => -(spec_piece_value(t.piece) + spec_bonus(t.piece, 7 - r, 7 - c)),
            Color::White => spec_piece_value(t.piece) + spec_bonus(t.piece, r, c),
        },
    }
}

/// The sum of the contributions of the first `n` squares, walked
/// column by column.
pub open spec fn spec_cells_value(b: Board, n: nat) -> int
    decreases n,
{
    if n == 0 {
        0
    } else {
        spec_cells_value(b, (n - 1) as nat) + spec_contribution(b, (n - 1) as int / 8, (n - 1) as int % 8)
    }
}

/// The raw material-plus-position sum of the whole board.
pub open spec fn spec_board_value_raw(b: Board) -> int {
    spec_cells_value(b, 64)
}

/// The board's static evaluation: the raw sum, saturated at
/// `VALUE_LIMIT` so that mate scores always dominate it.
pub open spec fn spec_board_value(b: Board) -> int {
    if spec_board_value_raw(b) > VALUE_LIMIT as int {
        VALUE_LIMIT as int
    } else if spec_board_value_raw(b) < -(VALUE_LIMIT as int) {
        -(VALUE_LIMIT as int)
    } else {
        spec_board_value_raw(b)
    }
}

/// Anything the evaluator can score.
pub trait Valuable {
    /// The mathematical value this object evaluates to.
    spec fn spec_value(&self) -> int;

    /// What `value` asks of its argument.
    spec fn value_req(&self) -> bool;

    /// The centipawn value.
    fn value(&self) -> (r: Value)
        requires
            self.value_req(),
        ensures
            r as int == self.spec_value(),
    ;
}

impl Valuable for Piece {
    open spec fn spec_value(&self) -> int {
        spec_piece_value(*self)
    }

    open spec fn value_req(&self) -> bool {
        true
    }

    fn value(&self) -> (r: Value) {
        match self {
            Piece::Pawn => 100,
            Piece::Knight => 320,
            Piece::Bishop => 330,
            Piece::Rook => 500,
            Piece::Queen => 900,
            Piece::King => 20000,
        }
    }
}

impl Valuable for Tile {
    open spec fn spec_value(&self) -> int {
        spec_piece_value(self.piece)
    }

    open spec fn value_req(&self) -> bool {
        true
    }

    fn value(&self) -> (r: Value) {
        self.piece.value()
    }
}

impl Valuable for Board {
    open spec fn spec_value(&self) -> int {
        spec_board_value(*self)
    }

    open spec fn value_req(&self) -> bool {
        self.wf()
    }

    /// Returns the memoized evaluation when present, else sums material
    /// and positional bonus over all occupied squares.
    fn value(&self) -> (r: Value) {
        if let Some(v) = self.stored_value {
            return v;
        }
        let mut acc: i32 = 0;
        let mut c: usize = 0;
        while c < 8
            invariant
                c <= 8,
                acc as int == spec_cells_value(*self, (c * 8) as nat),
                -(c as int) * 8 * 53000 <= acc as int <= (c as int) * 8 * 53000,
            decreases 8 - c,
        {
            let mut r: usize = 0;
            while r < 8
                invariant
                    c < 8,
                    r <= 8,
                    acc as int == spec_cells_value(*self, (c * 8 + r) as nat),
                    -(c * 8 + r as int) * 53000 <= acc as int <= (c * 8 + r as int) * 53000,
                decreases 8 - r,
            {
                let cell_score: i32 = match self.tiles[r][c] {
                    None => 0,
                    Some(t) => {
                        let material: i16 = t.value();
                        let bonus: i16 = match t.color {
                            Color::Black => self.bonus_at(t.piece, 7 - r, 7 - c),
                            Color::White => self.bonus_at(t.piece, r, c),
                        };
                        let signed: i32 = material as i32 + bonus as i32;
                        match t.color {
                            Color::Black => -signed,
                            Color::White => signed,
                        }
                    },
                };
                assert(spec_cells_value(*self, (c * 8 + r + 1) as nat) == spec_cells_value(
                    *self,
                    (c * 8 + r) as nat,
                ) + spec_contribution(*self, c as int, r as int));
                acc = acc + cell_score;
                r = r + 1;
            }
            c = c + 1;
        }
        if acc > VALUE_LIMIT as i32 {
            VALUE_LIMIT
        } else if acc < -(VALUE_LIMIT as i32) {
            -VALUE_LIMIT
        } else {
            acc as i16
        }
    }
}

impl Board {
    /// The positional-bonus table entry for the given piece kind and
    /// coordinates.
    fn bonus_at(&self, p: Piece, row: usize, col: usize) -> (r: Value)
        requires
            row < 8,
            col < 8,
        ensures
            r as int == spec_bonus(p, row as int, col as int),
    {
        match p {
            Piece::Pawn => MG_POS_BONUS_PAWN[row][col],
            Piece::Knight => MG_POS_BONUS_KNIGHT[row][col],
            Piece::Bishop => MG_POS_BONUS_BISHOP[row][col],
            Piece::Rook => MG_POS_BONUS_ROOK[row][col],
            Piece::Queen => MG_POS_BONUS_QUEEN[row][col],
            Piece::King => MG_POS_BONUS_KING[row][col],
        }
    }
}

/// `b2` is `b1` with the colors swapped and the board rotated by a
/// half turn: the tile on `(r, c)` of `b2` is the tile on
/// `(7-r, 7-c)` of `b1` with its side flipped.
pub open spec fn spec_color_mirror(b1: Board, b2: Board) -> bool {
    forall|r: int, c: int|
        0 <= r < 8 && 0 <= c < 8 ==> #[trigger] b2.tiles[r][c] == (match b1.tiles[7 - r][7 - c] {
            Some(t) => Some(Tile { piece: t.piece, color: t.color.spec_swap() }),
            None => None,
        })
}

proof fn lemma_cells_value_mirror(b1: Board, b2: Board, n: int)
    requires
        spec_color_mirror(b1, b2),
        0 <= n <= 64,
    ensures
        spec_cells_value(b2, n as nat) == -(spec_cells_value(b1, 64) - spec_cells_value(
            b1,
            (64 - n) as nat,
        )),
    decreases n,
{
    if n == 0 {
    } else {
        lemma_cells_value_mirror(b1, b2, n - 1);
        let k = n - 1;
        let c2 = k / 8;
        let r2 = k % 8;
        let j = 63 - k;
        assert(j / 8 == 7 - c2 && j % 8 == 7 - r2) by (nonlinear_arith)
            requires
                0 <= k < 64,
                c2 == k / 8,
                r2 == k % 8,
                j == 63 - k,
        ;
        assert(0 <= c2 < 8 && 0 <= r2 < 8) by (nonlinear_arith)
            requires
                0 <= k < 64,
                c2 == k / 8,
                r2 == k % 8,
        ;
        // The k-th cell of b2 is the (63-k)-th cell of b1, negated.
        assert(b2.tiles[r2][c2] == (match b1.tiles[7 - r2][7 - c2] {
            Some(t) => Some(Tile { piece: t.piece, color: t.color.spec_swap() }),
            None => None::<Tile>,
        }));
        assert(spec_contribution(b2, c2, r2) == -spec_contribution(b1, 7 - c2, 7 - r2));
        assert(spec_cells_value(b1, (64 - (n - 1)) as nat) == spec_cells_value(
            b1,
            (64 - n) as nat,
        ) + spec_contribution(b1, 7 - c2, 7 - r2));
    }
}

/// Evaluation is odd in the side: swapping every piece's color while
/// rotating the board by a half turn (so that each side's
/// piece-square tables are read through the mirrored indices the
/// evaluator uses for Black) negates the raw material-and-position
/// sum, and with it the saturated evaluation.
pub proof fn lemma_value_mirror(b1: Board, b2: Board)
    requires
        spec_color_mirror(b1, b2),
    ensures
        spec_board_value_raw(b2) == -spec_board_value_raw(b1),
        spec_board_value(b2) == -spec_board_value(b1),
{
    lemma_cells_value_mirror(b1, b2, 64);
    assert(spec_cells_value(b1, 0) == 0);
}

/// A board with its evaluation written into the memo slot.
pub open spec fn spec_stored_board(b: Board) -> Board {
    Board {
        tiles: b.tiles,
        player: b.player,
        king_pos: b.king_pos,
        can_castle_qs: b.can_castle_qs,
        can_castle_ks: b.can_castle_ks,
        stored_value: Some(spec_board_value(b) as i16),
    }
}

/// Writing the correct evaluation into the memo slot keeps the board
/// well-formed: the slot's clause of `wf` is exactly this value, and
/// the grid, side and caches are untouched.
pub proof fn lemma_stored_board_wf(b: Board)
    requires
        b.wf(),
    ensures
        spec_stored_board(b).wf(),
        spec_board_value(spec_stored_board(b)) == spec_board_value(b),
{
    let s = spec_stored_board(b);
    lemma_value_ignores_memo(b, s);
    assert forall|p: crate::board::Pos| p.valid() implies #[trigger] s.spec_at(p) == b.spec_at(
        p,
    ) by {}
}

/// The evaluation reads only the grid: boards with equal tiles have
/// equal values.
pub proof fn lemma_value_ignores_memo(b1: Board, b2: Board)
    requires
        b1.tiles == b2.tiles,
    ensures
        spec_board_value(b1) == spec_board_value(b2),
{
    lemma_cells_ignore_memo(b1, b2, 64);
}

proof fn lemma_cells_ignore_memo(b1: Board, b2: Board, n: nat)
    requires
        b1.tiles == b2.tiles,
    ensures
        spec_cells_value(b1, n) == spec_cells_value(b2, n),
    decreases n,
{
    if n > 0 {
        lemma_cells_ignore_memo(b1, b2, (n - 1) as nat);
    }
}

impl Board {
    /// Computes the evaluation and stores it into the memo slot, so
    /// that later reads return it without recomputation.
    pub fn value_memo(&mut self) -> (r: Value)
        requires
            old(self).wf(),
        ensures
            r as int == spec_board_value(*old(self)),
            *final(self) == spec_stored_board(*old(self)),
            final(self).wf(),
    {
        let r = self.value();
        self.stored_value = Some(r);
        proof {
            lemma_stored_board_wf(*old(self));
            assert(r == spec_board_value(*old(self)) as i16);
        }
        r
    }
}

} // verus!
