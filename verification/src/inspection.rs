//! Inspection: classifying a candidate move by its destination, and
//! deciding whether a king is attacked by re-emitting attack rays from
//! its own square.

use vstd::prelude::*;

use crate::board::{spec_pos_at, Board, Color, GameEnd, Move, MoveType, Piece, Pos, Tile};
use crate::generation::{spec_bishop_moves, spec_knight_moves, spec_rook_moves};

verus! {

/// How the destination square classifies a move from `f` to `t`:
/// illegal when the source is empty or the destination holds a piece
/// of the same side, a capture when it holds an enemy piece, a plain
/// move when it is empty.
pub open spec fn spec_move_type(b: Board, f: Pos, t: Pos) -> MoveType {
    match b.spec_at(f) {
        None => MoveType::Illegal,
        Some(ft) => match b.spec_at(t) {
            Some(tt) => if ft.color != tt.color {
                MoveType::Capture(tt.piece)
            } else {
                MoveType::Illegal
            },
            None => MoveType::Move,
        },
    }
}

/// Does an enemy pawn attack the king square diagonally from column
/// offset `dc`?
pub open spec fn spec_pawn_threat(b: Board, kp: Pos, dc: int, dr: int) -> bool {
    match spec_pos_at(kp.col as int + dc, kp.row as int + dr) {
        None => false,
        Some(p) => spec_move_type(b, kp, p) == MoveType::Capture(Piece::Pawn),
    }
}

/// Does any square of the sequence hold an enemy piece of one of the
/// two given kinds?
pub open spec fn spec_seq_hits(b: Board, s: Seq<Pos>, c: Color, p1: Piece, p2: Piece) -> bool {
    exists|i: int|
        0 <= i < s.len() && match b.spec_at(#[trigger] s[i]) {
            Some(t) => (t.piece == p1 || t.piece == p2) && t.color != c,
            None => false,
        }
}

/// Is the king of the given side attacked? Decided by reverse attack:
/// from the king's square, emit each piece kind's moves and look for a
/// matching enemy piece: a pawn on the forward diagonals, a bishop or
/// queen on a diagonal ray, a rook or queen on an orthogonal ray, a
/// knight on a leap, or the enemy king one step away.
pub open spec fn spec_in_check(b: Board, c: Color) -> bool {
    let kp = b.king_pos[c.spec_idx()];
    let dr: int = if c == Color::White {
        1
    } else {
        -1
    };
    ||| spec_pawn_threat(b, kp, -1, dr)
    ||| spec_pawn_threat(b, kp, 1, dr)
    ||| spec_seq_hits(b, spec_bishop_moves(b, kp, 7), c, Piece::Bishop, Piece::Queen)
    ||| spec_seq_hits(b, spec_rook_moves(b, kp, 7), c, Piece::Rook, Piece::Queen)
    ||| spec_seq_hits(b, spec_knight_moves(b, kp), c, Piece::Knight, Piece::Knight)
    ||| spec_seq_hits(
        b,
        spec_bishop_moves(b, kp, 1) + spec_rook_moves(b, kp, 1),
        c,
        Piece::King,
        Piece::King,
    )
}

impl Board {
    /// Does any square of the vector hold an enemy piece of one of the
    /// two given kinds?
    fn scan_hits(&self, moves: &Vec<Pos>, c: Color, p1: Piece, p2: Piece) -> (r: bool)
        requires
            forall|j: int| 0 <= j < moves@.len() ==> (#[trigger] moves@[j]).valid(),
        ensures
            r == spec_seq_hits(*self, moves@, c, p1, p2),
    {
        let mut j: usize = 0;
        while j < moves.len()
            invariant
                j <= moves@.len(),
                forall|k: int| 0 <= k < moves@.len() ==> (#[trigger] moves@[k]).valid(),
                forall|k: int|
                    0 <= k < j ==> match self.spec_at(#[trigger] moves@[k]) {
                        Some(t) => !((t.piece == p1 || t.piece == p2) && t.color != c),
                        None => true,
                    },
            decreases moves@.len() - j,
        {
            let p = moves[j];
            if let Some(tile) = self.at(p) {
                if (tile.piece == p1 || tile.piece == p2) && tile.color != c {
                    return true;
                }
            }
            j = j + 1;
        }
        false
    }

    /// Is the king of the given side attacked? Decided by reverse
    /// attack from the king's own square.
    pub fn is_king_in_check(&self, color: Color) -> (r: bool)
        requires
            self.wf(),
        ensures
            r == spec_in_check(*self, color),
    {
        let king_pos = self.king_pos[color.idx()];
        let dr: i8 = if color == Color::White {
            1
        } else {
            -1
        };

        // A pawn attack on either forward diagonal.
        if let Some(pos) = Pos::at(king_pos.col - 1, king_pos.row + dr) {
            if let MoveType::Capture(Piece::Pawn) = self.move_type(king_pos, pos) {
                return true;
            }
        }
        if let Some(pos) = Pos::at(king_pos.col + 1, king_pos.row + dr) {
            if let MoveType::Capture(Piece::Pawn) = self.move_type(king_pos, pos) {
                return true;
            }
        }

        // A bishop or queen on a diagonal ray.
        let mut moves: Vec<Pos> = Vec::new();
        self.generate_bishop(&mut moves, king_pos, 7);
        proof {
            crate::generation::lemma_bishop_elems(*self, king_pos, 7);
        }
        if self.scan_hits(&moves, color, Piece::Bishop, Piece::Queen) {
            return true;
        }

        // A rook or queen on an orthogonal ray.
        let mut moves: Vec<Pos> = Vec::new();
        self.generate_rook(&mut moves, king_pos, 7);
        proof {
            crate::generation::lemma_rook_elems(*self, king_pos, 7);
        }
        if self.scan_hits(&moves, color, Piece::Rook, Piece::Queen) {
            return true;
        }

        // A knight on a leap.
        let mut moves: Vec<Pos> = Vec::new();
        self.generate_knight(&mut moves, king_pos);
        proof {
            crate::generation::lemma_knight_elems(*self, king_pos);
        }
        if self.scan_hits(&moves, color, Piece::Knight, Piece::Knight) {
            return true;
        }

        // The enemy king one step away.
        let mut moves: Vec<Pos> = Vec::new();
        self.generate_bishop(&mut moves, king_pos, 1);
        self.generate_rook(&mut moves, king_pos, 1);
        proof {
            crate::generation::lemma_bishop_elems(*self, king_pos, 1);
            crate::generation::lemma_rook_elems(*self, king_pos, 1);
        }
        if self.scan_hits(&moves, color, Piece::King, Piece::King) {
            return true;
        }

        false
    }

    /// Classifies the move from `f_pos` to `t_pos` by its endpoints.
    pub fn move_type(&self, f_pos: Pos, t_pos: Pos) -> (r: MoveType)
        requires
            f_pos.valid(),
            t_pos.valid(),
        ensures
            r == spec_move_type(*self, f_pos, t_pos),
    {
        if let Some(f_tile) = self.at(f_pos) {
            if let Some(t_tile) = self.at(t_pos) {
                if f_tile.color != t_tile.color {
                    return MoveType::Capture(t_tile.piece);
                }
            } else {
                return MoveType::Move;
            }
        }
        MoveType::Illegal
    }
}

/// One checking ray walk: steps in direction `(dc, dr)` looking for
/// the destination, seeing through up to `max_obs` occupied squares;
/// finding the destination classifies the move, running off the board
/// or past the obstacle budget makes it illegal.
pub open spec fn spec_check_arm(
    b: Board,
    f: Pos,
    t: Pos,
    max_obs: int,
    dc: int,
    dr: int,
    i: int,
    obstacles: int,
) -> MoveType
    decreases 8 - i,
{
    if i >= 8 {
        MoveType::Illegal
    } else {
        match spec_pos_at(f.col as int + dc * i, f.row as int + dr * i) {
            None => MoveType::Illegal,
            Some(x) => {
                let mt = spec_move_type(b, f, x);
                match mt {
                    MoveType::Move => if t == x {
                        MoveType::Move
                    } else {
                        spec_check_arm(b, f, t, max_obs, dc, dr, i + 1, obstacles)
                    },
                    _ => if obstacles == max_obs {
                        if t == x {
                            mt
                        } else {
                            MoveType::Illegal
                        }
                    } else {
                        spec_check_arm(b, f, t, max_obs, dc, dr, i + 1, obstacles + 1)
                    },
                }
            },
        }
    }
}

/// A bishop-wise check: the move must be an exact diagonal, walked in
/// the matching direction.
pub open spec fn spec_check_bishop(b: Board, f: Pos, t: Pos, max_obs: int) -> MoveType {
    let dcol = t.col as int - f.col as int;
    let drow = t.row as int - f.row as int;
    if dcol != drow && dcol != -drow {
        MoveType::Illegal
    } else if dcol < 0 && drow > 0 {
        spec_check_arm(b, f, t, max_obs, -1, 1, 1, 0)
    } else if dcol > 0 && drow > 0 {
        spec_check_arm(b, f, t, max_obs, 1, 1, 1, 0)
    } else if dcol > 0 && drow < 0 {
        spec_check_arm(b, f, t, max_obs, 1, -1, 1, 0)
    } else if dcol < 0 && drow < 0 {
        spec_check_arm(b, f, t, max_obs, -1, -1, 1, 0)
    } else {
        MoveType::Illegal
    }
}

/// A rook-wise check: the move must be an exact file or rank, walked
/// in the matching direction.
pub open spec fn spec_check_rook(b: Board, f: Pos, t: Pos, max_obs: int) -> MoveType {
    let dcol = t.col as int - f.col as int;
    let drow = t.row as int - f.row as int;
    if dcol == 0 && drow > 0 {
        spec_check_arm(b, f, t, max_obs, 0, 1, 1, 0)
    } else if dcol > 0 && drow == 0 {
        spec_check_arm(b, f, t, max_obs, 1, 0, 1, 0)
    } else if dcol == 0 && drow < 0 {
        spec_check_arm(b, f, t, max_obs, 0, -1, 1, 0)
    } else if dcol < 0 && drow == 0 {
        spec_check_arm(b, f, t, max_obs, -1, 0, 1, 0)
    } else {
        MoveType::Illegal
    }
}

/// The geometric check of a castling king move of two files: rights,
/// the king on its original square, an empty path, the rook on its
/// corner, and the side not currently in check.
pub open spec fn spec_check_castle(b: Board, f: Pos, t: Pos) -> MoveType {
    let rank = crate::board::back_rank(b.player);
    if f == (Pos { row: rank as i8, col: 4 }) && t == (Pos { row: rank as i8, col: 2 })
        && b.can_castle_qs[b.player.spec_idx()] && b.tiles[rank][1] is None && b.tiles[rank][2]
        is None && b.tiles[rank][3] is None && b.tiles[rank][0] == Some(
        Tile { piece: Piece::Rook, color: b.player },
    ) && !spec_in_check(b, b.player) {
        MoveType::Move
    } else if f == (Pos { row: rank as i8, col: 4 }) && t == (Pos { row: rank as i8, col: 6 })
        && b.can_castle_ks[b.player.spec_idx()] && b.tiles[rank][5] is None && b.tiles[rank][6]
        is None && b.tiles[rank][7] == Some(Tile { piece: Piece::Rook, color: b.player })
        && !spec_in_check(b, b.player) {
        MoveType::Move
    } else {
        MoveType::Illegal
    }
}

/// The geometric check of a move, dispatched on the moving piece and
/// seeing through up to `max_obs` obstacles on slider rays.
pub open spec fn spec_check_piece(b: Board, f: Pos, t: Pos, max_obs: int) -> MoveType {
    match b.spec_at(f) {
        None => MoveType::Illegal,
        Some(ft) => match ft.piece {
            Piece::Pawn => {
                let dr: int = if ft.color == Color::White {
                    1
                } else {
                    -1
                };
                let start: int = if ft.color == Color::White {
                    1
                } else {
                    6
                };
                match b.spec_at(t) {
                    Some(tt) => if (t.col as int - f.col as int == 1 || f.col as int - t.col as int
                        == 1) && t.row as int == f.row as int + dr && tt.color != ft.color {
                        MoveType::Capture(tt.piece)
                    } else {
                        MoveType::Illegal
                    },
                    None => if t.col == f.col && (t.row as int == f.row as int + dr || (f.row as int
                        == start && b.tiles[start + dr][f.col as int] is None && t.row as int
                        == start + 2 * dr)) {
                        MoveType::Move
                    } else {
                        MoveType::Illegal
                    },
                }
            },
            Piece::Knight => {
                let adc = if t.col >= f.col {
                    t.col as int - f.col as int
                } else {
                    f.col as int - t.col as int
                };
                let adr = if t.row >= f.row {
                    t.row as int - f.row as int
                } else {
                    f.row as int - t.row as int
                };
                if (adr == 1 && adc == 2) || (adr == 2 && adc == 1) {
                    spec_move_type(b, f, t)
                } else {
                    MoveType::Illegal
                }
            },
            Piece::Bishop => spec_check_bishop(b, f, t, max_obs),
            Piece::Rook => spec_check_rook(b, f, t, max_obs),
            Piece::Queen => {
                let cb = spec_check_bishop(b, f, t, max_obs);
                if cb != MoveType::Illegal {
                    cb
                } else {
                    spec_check_rook(b, f, t, max_obs)
                }
            },
            Piece::King => {
                let adc = if t.col >= f.col {
                    t.col as int - f.col as int
                } else {
                    f.col as int - t.col as int
                };
                let adr = if t.row >= f.row {
                    t.row as int - f.row as int
                } else {
                    f.row as int - t.row as int
                };
                if adc == 2 {
                    spec_check_castle(b, f, t)
                } else if adc <= 1 && adr <= 1 && (adc == 1 || adr == 1) {
                    spec_move_type(b, f, t)
                } else {
                    MoveType::Illegal
                }
            },
        },
    }
}

/// The full validation of an externally supplied move: the geometry
/// must accept it, the destination must hold no king, and after
/// provisionally applying it the mover's own king must not be in
/// check.
pub open spec fn spec_check_move(b: Board, f: Pos, t: Pos, max_obs: int) -> MoveType {
    let mt = spec_check_piece(b, f, t, max_obs);
    if mt == MoveType::Illegal {
        MoveType::Illegal
    } else if t == b.king_pos[0] || t == b.king_pos[1] {
        MoveType::Illegal
    } else {
        let mv = Move { f_pos: f, t_pos: t, promotion: None };
        let after = crate::board::spec_apply_move(b, mv);
        if spec_in_check(after, b.spec_at(f).unwrap().color) {
            MoveType::Illegal
        } else {
            mt
        }
    }
}

/// A ray check that accepts a move never points it back at its own
/// source square.
proof fn lemma_check_arm_ne(
    b: Board,
    f: Pos,
    t: Pos,
    max_obs: int,
    dc: int,
    dr: int,
    i: int,
    obstacles: int,
)
    requires
        f.valid(),
        1 <= i,
        -1 <= dc <= 1,
        -1 <= dr <= 1,
        !(dc == 0 && dr == 0),
    ensures
        spec_check_arm(b, f, t, max_obs, dc, dr, i, obstacles) != MoveType::Illegal ==> t != f
            && t.valid(),
    decreases 8 - i,
{
    if i >= 8 {
    } else {
        match spec_pos_at(f.col as int + dc * i, f.row as int + dr * i) {
            None => {},
            Some(x) => {
                assert(dc * i != 0 || dr * i != 0) by (nonlinear_arith)
                    requires
                        1 <= i,
                        !(dc == 0 && dr == 0),
                        -1 <= dc <= 1,
                        -1 <= dr <= 1,
                ;
                lemma_check_arm_ne(b, f, t, max_obs, dc, dr, i + 1, obstacles);
                lemma_check_arm_ne(b, f, t, max_obs, dc, dr, i + 1, obstacles + 1);
            },
        }
    }
}

/// A geometric check that accepts a move gives one that
/// `clone_apply_move` accepts, provided the destination holds no
/// king.
pub(crate) proof fn lemma_check_piece_ok(b: Board, f: Pos, t: Pos, max_obs: int)
    requires
        b.wf(),
        f.valid(),
        t.valid(),
        spec_check_piece(b, f, t, max_obs) != MoveType::Illegal,
        t != b.king_pos[0],
        t != b.king_pos[1],
    ensures
        crate::board::spec_move_ok(b, Move { f_pos: f, t_pos: t, promotion: None }),
{
    let mv = Move { f_pos: f, t_pos: t, promotion: None };
    let ft = b.spec_at(f).unwrap();
    match ft.piece {
        Piece::Bishop => {
            lemma_check_arm_ne(b, f, t, max_obs, -1, 1, 1, 0);
            lemma_check_arm_ne(b, f, t, max_obs, 1, 1, 1, 0);
            lemma_check_arm_ne(b, f, t, max_obs, 1, -1, 1, 0);
            lemma_check_arm_ne(b, f, t, max_obs, -1, -1, 1, 0);
        },
        Piece::Rook => {
            lemma_check_arm_ne(b, f, t, max_obs, 0, 1, 1, 0);
            lemma_check_arm_ne(b, f, t, max_obs, 1, 0, 1, 0);
            lemma_check_arm_ne(b, f, t, max_obs, 0, -1, 1, 0);
            lemma_check_arm_ne(b, f, t, max_obs, -1, 0, 1, 0);
        },
        Piece::Queen => {
            lemma_check_arm_ne(b, f, t, max_obs, -1, 1, 1, 0);
            lemma_check_arm_ne(b, f, t, max_obs, 1, 1, 1, 0);
            lemma_check_arm_ne(b, f, t, max_obs, 1, -1, 1, 0);
            lemma_check_arm_ne(b, f, t, max_obs, -1, -1, 1, 0);
            lemma_check_arm_ne(b, f, t, max_obs, 0, 1, 1, 0);
            lemma_check_arm_ne(b, f, t, max_obs, 1, 0, 1, 0);
            lemma_check_arm_ne(b, f, t, max_obs, 0, -1, 1, 0);
            lemma_check_arm_ne(b, f, t, max_obs, -1, 0, 1, 0);
        },
        _ => {},
    }
}

impl Board {
    /// The geometric check of a move, seeing through up to
    /// `max_obstacles` obstacles on slider rays.
    fn check_piece(&self, f_pos: Pos, t_pos: Pos, max_obstacles: u8) -> (r: MoveType)
        requires
            self.wf(),
            f_pos.valid(),
            t_pos.valid(),
        ensures
            r == spec_check_piece(*self, f_pos, t_pos, max_obstacles as int),
    {
        let f_tile = match self.at(f_pos) {
            Some(ft) => ft,
            None => {
                return MoveType::Illegal;
            },
        };
        match f_tile.piece {
            Piece::Pawn => {
                let dr: i8 = if f_tile.color == Color::White {
                    1
                } else {
                    -1
                };
                let start: i8 = if f_tile.color == Color::White {
                    1
                } else {
                    6
                };
                match self.at(t_pos) {
                    Some(t_tile) => {
                        if (t_pos.col - f_pos.col == 1 || f_pos.col - t_pos.col == 1)
                            && t_pos.row == f_pos.row + dr && t_tile.color != f_tile.color {
                            MoveType::Capture(t_tile.piece)
                        } else {
                            MoveType::Illegal
                        }
                    },
                    None => {
                        if t_pos.col == f_pos.col && (t_pos.row == f_pos.row + dr || (f_pos.row
                            == start && self.at(
                            Pos { row: start + dr, col: f_pos.col },
                        ).is_none() && t_pos.row == start + 2 * dr)) {
                            MoveType::Move
                        } else {
                            MoveType::Illegal
                        }
                    },
                }
            },
            Piece::Knight => {
                let adc: i8 = if t_pos.col >= f_pos.col {
                    t_pos.col - f_pos.col
                } else {
                    f_pos.col - t_pos.col
                };
                let adr: i8 = if t_pos.row >= f_pos.row {
                    t_pos.row - f_pos.row
                } else {
                    f_pos.row - t_pos.row
                };
                if (adr == 1 && adc == 2) || (adr == 2 && adc == 1) {
                    self.move_type(f_pos, t_pos)
                } else {
                    MoveType::Illegal
                }
            },
            Piece::Bishop => self.check_bishop(f_pos, t_pos, max_obstacles),
            Piece::Rook => self.check_rook(f_pos, t_pos, max_obstacles),
            Piece::Queen => {
                let cb = self.check_bishop(f_pos, t_pos, max_obstacles);
                if cb != MoveType::Illegal {
                    cb
                } else {
                    self.check_rook(f_pos, t_pos, max_obstacles)
                }
            },
            Piece::King => {
                let adc: i8 = if t_pos.col >= f_pos.col {
                    t_pos.col - f_pos.col
                } else {
                    f_pos.col - t_pos.col
                };
                let adr: i8 = if t_pos.row >= f_pos.row {
                    t_pos.row - f_pos.row
                } else {
                    f_pos.row - t_pos.row
                };
                if adc == 2 {
                    self.check_castle(f_pos, t_pos)
                } else if adc <= 1 && adr <= 1 && (adc == 1 || adr == 1) {
                    self.move_type(f_pos, t_pos)
                } else {
                    MoveType::Illegal
                }
            },
        }
    }

    /// The geometric check of a castling king move.
    fn check_castle(&self, f_pos: Pos, t_pos: Pos) -> (r: MoveType)
        requires
            self.wf(),
            f_pos.valid(),
            t_pos.valid(),
        ensures
            r == spec_check_castle(*self, f_pos, t_pos),
    {
        let rank: i8 = if self.player == Color::White {
            0
        } else {
            7
        };
        if f_pos == (Pos { row: rank, col: 4 }) && t_pos == (Pos { row: rank, col: 2 })
            && self.can_castle_qs[self.player.idx()] && self.at(
            Pos { row: rank, col: 1 },
        ).is_none() && self.at(Pos { row: rank, col: 2 }).is_none() && self.at(
            Pos { row: rank, col: 3 },
        ).is_none() && self.corner_rook(Pos { row: rank, col: 0 }) && !self.is_king_in_check(
            self.player,
        ) {
            MoveType::Move
        } else if f_pos == (Pos { row: rank, col: 4 }) && t_pos == (Pos { row: rank, col: 6 })
            && self.can_castle_ks[self.player.idx()] && self.at(
            Pos { row: rank, col: 5 },
        ).is_none() && self.at(Pos { row: rank, col: 6 }).is_none() && self.corner_rook(
            Pos { row: rank, col: 7 },
        ) && !self.is_king_in_check(self.player) {
            MoveType::Move
        } else {
            MoveType::Illegal
        }
    }

    /// Does a rook of the side to move stand on the given square?
    fn corner_rook(&self, p: Pos) -> (r: bool)
        requires
            p.valid(),
        ensures
            r == (self.spec_at(p) == Some(Tile { piece: Piece::Rook, color: self.player })),
    {
        match self.at(p) {
            Some(t) => t.piece == Piece::Rook && t.color == self.player,
            None => false,
        }
    }

    /// One checking ray walk; mirrors `spec_check_arm`.
    fn check_arm(&self, f_pos: Pos, t_pos: Pos, max_obstacles: u8, dc: i8, dr: i8) -> (r: MoveType)
        requires
            f_pos.valid(),
            t_pos.valid(),
            -1 <= dc <= 1,
            -1 <= dr <= 1,
        ensures
            r == spec_check_arm(*self, f_pos, t_pos, max_obstacles as int, dc as int, dr as int, 1, 0),
    {
        let mut obstacles: u8 = 0;
        let mut i: i8 = 1;
        while i < 8
            invariant
                f_pos.valid(),
                t_pos.valid(),
                -1 <= dc <= 1,
                -1 <= dr <= 1,
                1 <= i <= 8,
                obstacles < i,
                spec_check_arm(
                    *self,
                    f_pos,
                    t_pos,
                    max_obstacles as int,
                    dc as int,
                    dr as int,
                    1,
                    0,
                ) == spec_check_arm(
                    *self,
                    f_pos,
                    t_pos,
                    max_obstacles as int,
                    dc as int,
                    dr as int,
                    i as int,
                    obstacles as int,
                ),
            decreases 8 - i,
        {
            proof {
                assert(-8 <= dc as int * i as int <= 8 && -8 <= dr as int * i as int <= 8)
                    by (nonlinear_arith)
                    requires
                        -1 <= dc <= 1,
                        -1 <= dr <= 1,
                        1 <= i <= 8,
                ;
            }
            match Pos::at(f_pos.col + dc * i, f_pos.row + dr * i) {
                None => {
                    return MoveType::Illegal;
                },
                Some(x_pos) => {
                    let mt = self.move_type(f_pos, x_pos);
                    match mt {
                        MoveType::Move => {
                            if t_pos == x_pos {
                                return MoveType::Move;
                            }
                        },
                        _ => {
                            if obstacles == max_obstacles {
                                if t_pos == x_pos {
                                    return mt;
                                } else {
                                    return MoveType::Illegal;
                                }
                            }
                            obstacles = obstacles + 1;
                        },
                    }
                },
            }
            i = i + 1;
        }
        MoveType::Illegal
    }

    /// A bishop-wise check; mirrors `spec_check_bishop`.
    fn check_bishop(&self, f_pos: Pos, t_pos: Pos, max_obstacles: u8) -> (r: MoveType)
        requires
            f_pos.valid(),
            t_pos.valid(),
        ensures
            r == spec_check_bishop(*self, f_pos, t_pos, max_obstacles as int),
    {
        let dcol: i8 = t_pos.col - f_pos.col;
        let drow: i8 = t_pos.row - f_pos.row;
        if dcol != drow && dcol != -drow {
            MoveType::Illegal
        } else if dcol < 0 && drow > 0 {
            self.check_arm(f_pos, t_pos, max_obstacles, -1, 1)
        } else if dcol > 0 && drow > 0 {
            self.check_arm(f_pos, t_pos, max_obstacles, 1, 1)
        } else if dcol > 0 && drow < 0 {
            self.check_arm(f_pos, t_pos, max_obstacles, 1, -1)
        } else if dcol < 0 && drow < 0 {
            self.check_arm(f_pos, t_pos, max_obstacles, -1, -1)
        } else {
            MoveType::Illegal
        }
    }

    /// A rook-wise check; mirrors `spec_check_rook`.
    fn check_rook(&self, f_pos: Pos, t_pos: Pos, max_obstacles: u8) -> (r: MoveType)
        requires
            f_pos.valid(),
            t_pos.valid(),
        ensures
            r == spec_check_rook(*self, f_pos, t_pos, max_obstacles as int),
    {
        let dcol: i8 = t_pos.col - f_pos.col;
        let drow: i8 = t_pos.row - f_pos.row;
        if dcol == 0 && drow > 0 {
            self.check_arm(f_pos, t_pos, max_obstacles, 0, 1)
        } else if dcol > 0 && drow == 0 {
            self.check_arm(f_pos, t_pos, max_obstacles, 1, 0)
        } else if dcol == 0 && drow < 0 {
            self.check_arm(f_pos, t_pos, max_obstacles, 0, -1)
        } else if dcol < 0 && drow == 0 {
            self.check_arm(f_pos, t_pos, max_obstacles, -1, 0)
        } else {
            MoveType::Illegal
        }
    }

    /// Validates an externally supplied move: the piece's geometry
    /// must accept it, seeing through up to `max_obstacles` blockers
    /// on slider rays, the destination must hold no king, and the
    /// mover's own king must not be in check afterwards.
    pub fn check_move(&self, f_pos: Pos, t_pos: Pos, max_obstacles: u8) -> (r: MoveType)
        requires
            self.wf(),
            f_pos.valid(),
            t_pos.valid(),
        ensures
            r == spec_check_move(*self, f_pos, t_pos, max_obstacles as int),
    {
        let mt = self.check_piece(f_pos, t_pos, max_obstacles);
        if mt == MoveType::Illegal {
            return MoveType::Illegal;
        }
        if t_pos == self.king_pos[0] || t_pos == self.king_pos[1] {
            return MoveType::Illegal;
        }
        proof {
            lemma_check_piece_ok(*self, f_pos, t_pos, max_obstacles as int);
        }
        let mv = Move { f_pos, t_pos, promotion: None };
        let b = self.clone_apply_move(&mv);
        let mover = self.at(f_pos).unwrap().color;
        if b.is_king_in_check(mover) {
            MoveType::Illegal
        } else {
            mt
        }
    }
}

/// How the game stands: in progress while a legal move exists, else
/// checkmate of the side to move when its king is attacked, else a
/// stalemate draw.
pub open spec fn spec_end_game(b: Board) -> Option<GameEnd> {
    if crate::generation::spec_generate_all(b).len() > 0 {
        None
    } else if spec_in_check(b, b.player) {
        Some(GameEnd::Checkmate(b.player))
    } else {
        Some(GameEnd::Draw)
    }
}

impl Board {
    /// Classifies the position: in progress, checkmate of the side to
    /// move, or a stalemate draw.
    pub fn check_end_game(&self) -> (r: Option<GameEnd>)
        requires
            self.wf(),
        ensures
            r == spec_end_game(*self),
    {
        let moves = self.generate_all();
        if moves.len() > 0 {
            None
        } else if self.is_king_in_check(self.player) {
            Some(GameEnd::Checkmate(self.player))
        } else {
            Some(GameEnd::Draw)
        }
    }
}

} // verus!
