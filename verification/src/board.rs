//! The position model: colors, pieces, tiles, squares, moves and the board.

use vstd::prelude::*;

verus! {

/// Failure of parsing a position, a square or a move.
#[derive(Clone, Copy, Debug, PartialEq, Eq, Structural)]
pub struct ParseError;

/// One of the two sides of the game.
#[derive(Debug, Copy, Clone, PartialEq, Eq, Structural)]
pub enum Color {
    Black,
    White,
}

impl Color {
    /// Index of the side into the per-side arrays of the board.
    pub open spec fn spec_idx(self) -> int {
        match self {
            Color::Black => 0,
            Color::White => 1,
        }
    }

    /// Index of the side into the per-side arrays of the board.
    #[inline]
    pub fn idx(self) -> (r: usize)
        ensures
            r as int == self.spec_idx(),
    {
        match self {
            Color::Black => 0,
            Color::White => 1,
        }
    }

    /// The opposite side; swapping twice gives the side back.
    pub open spec fn spec_swap(self) -> Color {
        match self {
            Color::White => Color::Black,
            Color::Black => Color::White,
        }
    }

    /// The opposite side.
    #[inline]
    pub fn swap(&self) -> (r: Color)
        ensures
            r == self.spec_swap(),
    {
        match self {
            Color::White => Color::Black,
            Color::Black => Color::White,
        }
    }

    /// Reads a side-to-move letter: `w`/`W` is White, `b`/`B` is Black.
    pub fn from_char(c: char) -> (r: Option<Color>)
        ensures
            r == spec_color_from_char(c),
    {
        match c {
            'b' | 'B' => Some(Color::Black),
            'w' | 'W' => Some(Color::White),
            _ => None,
        }
    }

    /// The lowercase letter of the side, as printed in a FEN.
    pub fn to_char(&self) -> (r: char)
        ensures
            r == self.spec_char(),
    {
        match self {
            Color::White => 'w',
            Color::Black => 'b',
        }
    }

    /// The lowercase letter of the side.
    pub open spec fn spec_char(self) -> char {
        match self {
            Color::White => 'w',
            Color::Black => 'b',
        }
    }
}

/// What `Color::from_char` accepts.
pub open spec fn spec_color_from_char(c: char) -> Option<Color> {
    if c == 'b' || c == 'B' {
        Some(Color::Black)
    } else if c == 'w' || c == 'W' {
        Some(Color::White)
    } else {
        None
    }
}

/// A kind of chessman.
#[derive(Debug, Copy, Clone, PartialEq, Eq, Structural)]
pub enum Piece {
    Pawn,
    Knight,
    Bishop,
    Rook,
    Queen,
    King,
}

impl Piece {
    /// Index of the piece kind into the evaluation tables.
    pub open spec fn spec_idx(self) -> int {
        match self {
            Piece::Pawn => 0,
            Piece::Knight => 1,
            Piece::Bishop => 2,
            Piece::Rook => 3,
            Piece::Queen => 4,
            Piece::King => 5,
        }
    }

    /// Index of the piece kind into the evaluation tables.
    #[inline]
    pub fn idx(self) -> (r: usize)
        ensures
            r as int == self.spec_idx(),
    {
        match self {
            Piece::Pawn => 0,
            Piece::Knight => 1,
            Piece::Bishop => 2,
            Piece::Rook => 3,
            Piece::Queen => 4,
            Piece::King => 5,
        }
    }

    /// The lowercase letter of the piece kind.
    pub open spec fn spec_char(self) -> char {
        match self {
            Piece::Pawn => 'p',
            Piece::Knight => 'n',
            Piece::Bishop => 'b',
            Piece::Rook => 'r',
            Piece::Queen => 'q',
            Piece::King => 'k',
        }
    }

    /// The lowercase letter of the piece kind.
    pub fn as_char(self) -> (r: char)
        ensures
            r == self.spec_char(),
    {
        match self {
            Piece::Pawn => 'p',
            Piece::Knight => 'n',
            Piece::Bishop => 'b',
            Piece::Rook => 'r',
            Piece::Queen => 'q',
            Piece::King => 'k',
        }
    }

    /// Reads a piece letter, either case.
    pub fn from_char(c: char) -> (r: Result<Piece, ParseError>)
        ensures
            r == spec_piece_from_char(c),
    {
        match c {
            'p' | 'P' => Ok(Piece::Pawn),
            'n' | 'N' => Ok(Piece::Knight),
            'b' | 'B' => Ok(Piece::Bishop),
            'r' | 'R' => Ok(Piece::Rook),
            'k' | 'K' => Ok(Piece::King),
            'q' | 'Q' => Ok(Piece::Queen),
            _ => Err(ParseError),
        }
    }
}

/// What `Piece::from_char` accepts.
pub open spec fn spec_piece_from_char(c: char) -> Result<Piece, ParseError> {
    if c == 'p' || c == 'P' {
        Ok(Piece::Pawn)
    } else if c == 'n' || c == 'N' {
        Ok(Piece::Knight)
    } else if c == 'b' || c == 'B' {
        Ok(Piece::Bishop)
    } else if c == 'r' || c == 'R' {
        Ok(Piece::Rook)
    } else if c == 'k' || c == 'K' {
        Ok(Piece::King)
    } else if c == 'q' || c == 'Q' {
        Ok(Piece::Queen)
    } else {
        Err(ParseError)
    }
}

/// A chessman of a side standing on a square.
#[derive(Debug, Copy, Clone, PartialEq, Eq, Structural)]
pub struct Tile {
    pub piece: Piece,
    pub color: Color,
}

impl Tile {
    /// The FEN letter of the tile: uppercase for White, lowercase for Black.
    pub open spec fn spec_char(self) -> char {
        match self.color {
            Color::Black => self.piece.spec_char(),
            Color::White => match self.piece {
                Piece::Pawn => 'P',
                Piece::Knight => 'N',
                Piece::Bishop => 'B',
                Piece::Rook => 'R',
                Piece::Queen => 'Q',
                Piece::King => 'K',
            },
        }
    }

    /// Reads a FEN tile letter: uppercase is White, lowercase is Black.
    pub fn from_char(c: char) -> (r: Option<Tile>)
        ensures
            r == spec_tile_from_char(c),
    {
        match c {
            'p' => Some(Tile { piece: Piece::Pawn, color: Color::Black }),
            'n' => Some(Tile { piece: Piece::Knight, color: Color::Black }),
            'b' => Some(Tile { piece: Piece::Bishop, color: Color::Black }),
            'r' => Some(Tile { piece: Piece::Rook, color: Color::Black }),
            'k' => Some(Tile { piece: Piece::King, color: Color::Black }),
            'q' => Some(Tile { piece: Piece::Queen, color: Color::Black }),
            'P' => Some(Tile { piece: Piece::Pawn, color: Color::White }),
            'N' => Some(Tile { piece: Piece::Knight, color: Color::White }),
            'B' => Some(Tile { piece: Piece::Bishop, color: Color::White }),
            'R' => Some(Tile { piece: Piece::Rook, color: Color::White }),
            'K' => Some(Tile { piece: Piece::King, color: Color::White }),
            'Q' => Some(Tile { piece: Piece::Queen, color: Color::White }),
            _ => None,
        }
    }

    /// The FEN letter of the tile.
    pub fn as_char(&self) -> (r: char)
        ensures
            r == self.spec_char(),
    {
        match (self.piece, self.color) {
            (Piece::Pawn, Color::Black) => 'p',
            (Piece::Knight, Color::Black) => 'n',
            (Piece::Bishop, Color::Black) => 'b',
            (Piece::Rook, Color::Black) => 'r',
            (Piece::King, Color::Black) => 'k',
            (Piece::Queen, Color::Black) => 'q',
            (Piece::Pawn, Color::White) => 'P',
            (Piece::Knight, Color::White) => 'N',
            (Piece::Bishop, Color::White) => 'B',
            (Piece::Rook, Color::White) => 'R',
            (Piece::King, Color::White) => 'K',
            (Piece::Queen, Color::White) => 'Q',
        }
    }
}

/// A square of the board. The coordinates are signed so that move
/// generation may step off the board and notice; a square is on the
/// board only when both coordinates lie in `0..=7`.
#[derive(Debug, Copy, Clone, PartialEq, Eq, Structural)]
pub struct Pos {
    pub row: i8,
    pub col: i8,
}

impl Pos {
    /// Both coordinates lie on the board.
    pub open spec fn valid(self) -> bool {
        0 <= self.row < 8 && 0 <= self.col < 8
    }

    /// Builds a square when the coordinates are on the board.
    pub fn at(col: i8, row: i8) -> (r: Option<Pos>)
        ensures
            r == spec_pos_at(col as int, row as int),
    {
        if col < 0 || row < 0 || col > 7 || row > 7 {
            None
        } else {
            Some(Pos { col, row })
        }
    }
}

/// The square with the given coordinates, when they are on the board.
pub open spec fn spec_pos_at(col: int, row: int) -> Option<Pos> {
    if 0 <= col < 8 && 0 <= row < 8 {
        Some(Pos { row: row as i8, col: col as i8 })
    } else {
        None
    }
}

/// A move: source square, destination square, and the piece a pawn
/// turns into when the move promotes. Castling is encoded as a king
/// move of two files.
#[derive(Debug, Copy, Clone, PartialEq, Eq, Structural)]
pub struct Move {
    pub f_pos: Pos,
    pub t_pos: Pos,
    pub promotion: Option<Piece>,
}

/// How a destination square classifies a candidate move.
#[derive(Debug, Copy, Clone, PartialEq, Eq, Structural)]
pub enum MoveType {
    Illegal,
    Capture(Piece),
    Move,
}

/// How a finished game ended.
#[derive(Debug, Copy, Clone, PartialEq, Eq, Structural)]
pub enum GameEnd {
    Draw,
    /// The given side is checkmated (loses).
    Checkmate(Color),
}

/// The position: piece placement, side to move, king-square caches,
/// castling rights and the memoized evaluation slot.
#[derive(Debug, Clone, Copy, PartialEq, Eq)]
pub struct Board {
    /// Row 0 is White's back rank; `tiles[row][col]`.
    pub tiles: [[Option<Tile>; 8]; 8],
    /// The side to move.
    pub player: Color,
    /// Cached king squares, indexed by `Color::idx`.
    pub king_pos: [Pos; 2],
    /// Queen-side castling rights, indexed by `Color::idx`.
    pub can_castle_qs: [bool; 2],
    /// King-side castling rights, indexed by `Color::idx`.
    pub can_castle_ks: [bool; 2],
    /// Memoized static evaluation. Parsing and `clone_apply_move`
    /// clear it; the legal-move generator fills it on every board it
    /// creates, and `value` returns it without recomputation.
    pub stored_value: Option<i16>,
}

/// The rank a side's pieces start on.
pub open spec fn back_rank(c: Color) -> int {
    if c == Color::White {
        0
    } else {
        7
    }
}

/// The rank a side's pawns promote on.
pub open spec fn last_rank(c: Color) -> int {
    if c == Color::White {
        7
    } else {
        0
    }
}

/// A grid of tiles with the tile at the given square replaced.
pub open spec fn spec_set_tile(
    ts: [[Option<Tile>; 8]; 8],
    row: int,
    col: int,
    v: Option<Tile>,
) -> [[Option<Tile>; 8]; 8] {
    vstd::array::spec_array_update(ts, row, vstd::array::spec_array_update(ts[row], col, v))
}

impl Board {
    /// The tile standing on the given square.
    pub open spec fn spec_at(self, p: Pos) -> Option<Tile> {
        self.tiles[p.row as int][p.col as int]
    }

    /// Well-formedness: the king caches are on the board and point at
    /// the unique king of each side, and the memo slot, when set, holds
    /// the position's static evaluation.
    pub open spec fn wf(self) -> bool {
        &&& self.king_pos[0].valid()
        &&& self.king_pos[1].valid()
        &&& self.spec_at(self.king_pos[0]) == Some(
            Tile { piece: Piece::King, color: Color::Black },
        )
        &&& self.spec_at(self.king_pos[1]) == Some(
            Tile { piece: Piece::King, color: Color::White },
        )
        &&& forall|p: Pos|
            p.valid() ==> match #[trigger] self.spec_at(p) {
                Some(t) => t.piece == Piece::King ==> p == self.king_pos[t.color.spec_idx()],
                None => true,
            }
        &&& match self.stored_value {
            Some(v) => v as int == crate::evaluation::spec_board_value(self),
            None => true,
        }
    }

    /// The tile standing on the given square.
    pub fn at(&self, pos: Pos) -> (r: Option<Tile>)
        requires
            pos.valid(),
        ensures
            r == self.spec_at(pos),
    {
        self.tiles[pos.row as usize][pos.col as usize]
    }
}

/// Does the move promote: the mover is a pawn reaching its last rank.
pub open spec fn spec_is_promo(b: Board, mv: Move) -> bool {
    match b.spec_at(mv.f_pos) {
        Some(t) => t.piece == Piece::Pawn && mv.t_pos.row as int == last_rank(t.color),
        None => false,
    }
}

/// The tile standing on the destination after the move: the source
/// tile, or a queen of the mover's side when the move promotes.
pub open spec fn spec_moved_tile(b: Board, mv: Move) -> Tile {
    let ft = b.spec_at(mv.f_pos).unwrap();
    if spec_is_promo(b, mv) {
        Tile { piece: Piece::Queen, color: ft.color }
    } else {
        ft
    }
}

/// When the move castles, the rank and the rook's source and
/// destination columns of the accompanying rook slide.
pub open spec fn spec_castle_slide(b: Board, mv: Move) -> Option<(int, int, int)> {
    let mt = spec_moved_tile(b, mv);
    if mt.piece == Piece::King && (mv.f_pos.col - mv.t_pos.col == 2 || mv.t_pos.col - mv.f_pos.col
        == 2) {
        if mt.color == Color::Black && mv.t_pos == (Pos { row: 7, col: 6 }) {
            Some((7, 7, 5))
        } else if mt.color == Color::Black && mv.t_pos == (Pos { row: 7, col: 2 }) {
            Some((7, 0, 3))
        } else if mt.color == Color::White && mv.t_pos == (Pos { row: 0, col: 6 }) {
            Some((0, 7, 5))
        } else if mt.color == Color::White && mv.t_pos == (Pos { row: 0, col: 2 }) {
            Some((0, 0, 3))
        } else {
            None
        }
    } else {
        None
    }
}

/// The grid after the move: destination written, source cleared, and
/// on castling the rook slid from its corner.
pub open spec fn spec_tiles_after(b: Board, mv: Move) -> [[Option<Tile>; 8]; 8] {
    let moved = spec_moved_tile(b, mv);
    let ts1 = spec_set_tile(b.tiles, mv.t_pos.row as int, mv.t_pos.col as int, Some(moved));
    let ts2 = spec_set_tile(ts1, mv.f_pos.row as int, mv.f_pos.col as int, None);
    match spec_castle_slide(b, mv) {
        Some((row, fc, tc)) => spec_set_tile(spec_set_tile(ts2, row, tc, ts2[row][fc]), row, fc, None),
        None => ts2,
    }
}

/// What applying a move assumes of it: both squares on the board and
/// distinct, a piece on the source, no king on the destination, and on
/// castling an empty slide path whose corner does not hide a king.
pub open spec fn spec_move_ok(b: Board, mv: Move) -> bool {
    &&& mv.f_pos.valid()
    &&& mv.t_pos.valid()
    &&& mv.f_pos != mv.t_pos
    &&& b.spec_at(mv.f_pos) is Some
    &&& mv.t_pos != b.king_pos[0]
    &&& mv.t_pos != b.king_pos[1]
    &&& match spec_castle_slide(b, mv) {
        Some((row, fc, tc)) => {
            let corner = Pos { row: row as i8, col: fc as i8 };
            &&& b.tiles[row][tc] == None::<Tile>
            &&& (corner == mv.f_pos || (corner != b.king_pos[0] && corner != b.king_pos[1]))
        },
        None => true,
    }
}

/// The whole board after the move: grid as `spec_tiles_after`, side to
/// move flipped, king cache and castling rights maintained, memo slot
/// cleared.
pub open spec fn spec_apply_move(b: Board, mv: Move) -> Board {
    let moved = spec_moved_tile(b, mv);
    let king_pos = if moved.piece == Piece::King {
        vstd::array::spec_array_update(b.king_pos, moved.color.spec_idx(), mv.t_pos)
    } else {
        b.king_pos
    };
    let ks0 = b.can_castle_ks;
    let qs0 = b.can_castle_qs;
    // A king move drops both of its side's rights.
    let ks1 = if moved.piece == Piece::King {
        vstd::array::spec_array_update(ks0, moved.color.spec_idx(), false)
    } else {
        ks0
    };
    let qs1 = if moved.piece == Piece::King {
        vstd::array::spec_array_update(qs0, moved.color.spec_idx(), false)
    } else {
        qs0
    };
    // A rook leaving its original corner drops the right of that side.
    let ks2 = if moved.piece == Piece::Rook && mv.f_pos == (Pos {
        row: back_rank(moved.color) as i8,
        col: 7,
    }) {
        vstd::array::spec_array_update(ks1, moved.color.spec_idx(), false)
    } else {
        ks1
    };
    let qs2 = if moved.piece == Piece::Rook && mv.f_pos == (Pos {
        row: back_rank(moved.color) as i8,
        col: 0,
    }) {
        vstd::array::spec_array_update(qs1, moved.color.spec_idx(), false)
    } else {
        qs1
    };
    // A rook captured on its original corner drops its side's right.
    let captured = b.spec_at(mv.t_pos);
    let ks3 = match captured {
        Some(ct) => if ct.piece == Piece::Rook && mv.t_pos == (Pos {
            row: back_rank(ct.color) as i8,
            col: 7,
        }) {
            vstd::array::spec_array_update(ks2, ct.color.spec_idx(), false)
        } else {
            ks2
        },
        None => ks2,
    };
    let qs3 = match captured {
        Some(ct) => if ct.piece == Piece::Rook && mv.t_pos == (Pos {
            row: back_rank(ct.color) as i8,
            col: 0,
        }) {
            vstd::array::spec_array_update(qs2, ct.color.spec_idx(), false)
        } else {
            qs2
        },
        None => qs2,
    };
    Board {
        tiles: spec_tiles_after(b, mv),
        player: b.player.spec_swap(),
        king_pos,
        can_castle_ks: ks3,
        can_castle_qs: qs3,
        stored_value: None,
    }
}

/// Reading a grid with one square replaced: the new tile there, the
/// old grid everywhere else.
pub proof fn lemma_set_tile_at(ts: [[Option<Tile>; 8]; 8], row: int, col: int, v: Option<Tile>)
    requires
        0 <= row < 8,
        0 <= col < 8,
    ensures
        forall|r: int, c: int|
            0 <= r < 8 && 0 <= c < 8 ==> #[trigger] spec_set_tile(ts, row, col, v)[r][c] == (if r
                == row && c == col {
                v
            } else {
                ts[r][c]
            }),
{
    broadcast use vstd::array::group_array_axioms;

}

pub(crate) fn set_tile(ts: &mut [[Option<Tile>; 8]; 8], row: usize, col: usize, v: Option<Tile>)
    requires
        row < 8,
        col < 8,
    ensures
        *final(ts) == spec_set_tile(*old(ts), row as int, col as int, v),
{
    let mut line: [Option<Tile>; 8] = ts[row];
    line[col] = v;
    ts[row] = line;
    proof {
        broadcast use vstd::array::group_array_axioms;

        assert(line =~= vstd::array::spec_array_update(old(ts)[row as int], col as int, v));
        assert((*ts) =~= spec_set_tile(*old(ts), row as int, col as int, v));
    }
}

impl Board {
    /// Writes the move into the grid: destination takes the source
    /// tile (a queen when the move promotes), the source is cleared,
    /// and a castling king drags its rook along. The move is assumed
    /// to be valid; only the grid changes.
    pub fn make_move(&mut self, mv: &Move)
        requires
            mv.f_pos.valid(),
            mv.t_pos.valid(),
            mv.f_pos != mv.t_pos,
            old(self).spec_at(mv.f_pos) is Some,
        ensures
            final(self).tiles == spec_tiles_after(*old(self), *mv),
            final(self).player == old(self).player,
            final(self).king_pos == old(self).king_pos,
            final(self).can_castle_ks == old(self).can_castle_ks,
            final(self).can_castle_qs == old(self).can_castle_qs,
            final(self).stored_value == old(self).stored_value,
    {
        let f = self.at(mv.f_pos).unwrap();

        if f.piece == Piece::Pawn && ((f.color == Color::Black && mv.t_pos.row == 0) || (f.color
            == Color::White && mv.t_pos.row == 7)) {
            // Promotion: the pawn always becomes a queen.
            set_tile(
                &mut self.tiles,
                mv.t_pos.row as usize,
                mv.t_pos.col as usize,
                Some(Tile { piece: Piece::Queen, color: f.color }),
            );
        } else {
            set_tile(&mut self.tiles, mv.t_pos.row as usize, mv.t_pos.col as usize, Some(f));
        }
        set_tile(&mut self.tiles, mv.f_pos.row as usize, mv.f_pos.col as usize, None);

        let t = self.at(mv.t_pos).unwrap();

        // Castling: slide the rook as well.
        if t.piece == Piece::King && (mv.f_pos.col - mv.t_pos.col == 2 || mv.t_pos.col
            - mv.f_pos.col == 2) {
            match t.color {
                Color::Black => {
                    if mv.t_pos == (Pos { row: 7, col: 6 }) {
                        let corner = self.tiles[7][7];
                        set_tile(&mut self.tiles, 7, 5, corner);
                        set_tile(&mut self.tiles, 7, 7, None);
                    } else if mv.t_pos == (Pos { row: 7, col: 2 }) {
                        let corner = self.tiles[7][0];
                        set_tile(&mut self.tiles, 7, 3, corner);
                        set_tile(&mut self.tiles, 7, 0, None);
                    }
                },
                Color::White => {
                    if mv.t_pos == (Pos { row: 0, col: 6 }) {
                        let corner = self.tiles[0][7];
                        set_tile(&mut self.tiles, 0, 5, corner);
                        set_tile(&mut self.tiles, 0, 7, None);
                    } else if mv.t_pos == (Pos { row: 0, col: 2 }) {
                        let corner = self.tiles[0][0];
                        set_tile(&mut self.tiles, 0, 3, corner);
                        set_tile(&mut self.tiles, 0, 0, None);
                    }
                },
            }
        }
    }

    /// Copies the board, applies the move, flips the side to move and
    /// maintains the king caches, the castling rights and the memo
    /// slot. The move is assumed to be valid.
    pub fn clone_apply_move(&self, mv: &Move) -> (r: Board)
        requires
            self.wf(),
            spec_move_ok(*self, *mv),
        ensures
            r == spec_apply_move(*self, *mv),
            r.wf(),
            r.player == self.player.spec_swap(),
            // Castling rights are only ever withdrawn, never regained.
            forall|s: int|
                0 <= s < 2 ==> ((#[trigger] r.can_castle_ks[s] ==> self.can_castle_ks[s])
                    && (#[trigger] r.can_castle_qs[s] ==> self.can_castle_qs[s])),
            // The king caches keep pointing at the kings.
            r.spec_at(r.king_pos[0]) == Some(Tile { piece: Piece::King, color: Color::Black }),
            r.spec_at(r.king_pos[1]) == Some(Tile { piece: Piece::King, color: Color::White }),
    {
        let mut b = *self;
        b.make_move(mv);
        b.player = b.player.swap();

        let t = b.at(mv.t_pos).unwrap();

        // A king move updates its cache and drops both its rights.
        if t.piece == Piece::King {
            b.king_pos[t.color.idx()] = mv.t_pos;
            b.can_castle_ks[t.color.idx()] = false;
            b.can_castle_qs[t.color.idx()] = false;
        }
        // A rook moved off its original corner drops that side's right.
        if t.piece == Piece::Rook {
            match t.color {
                Color::Black => {
                    if mv.f_pos == (Pos { row: 7, col: 0 }) {
                        b.can_castle_qs[t.color.idx()] = false;
                    }
                    if mv.f_pos == (Pos { row: 7, col: 7 }) {
                        b.can_castle_ks[t.color.idx()] = false;
                    }
                },
                Color::White => {
                    if mv.f_pos == (Pos { row: 0, col: 0 }) {
                        b.can_castle_qs[t.color.idx()] = false;
                    }
                    if mv.f_pos == (Pos { row: 0, col: 7 }) {
                        b.can_castle_ks[t.color.idx()] = false;
                    }
                },
            }
        }
        // A rook captured on its original corner drops its side's right.
        if let Some(ct) = self.at(mv.t_pos) {
            if ct.piece == Piece::Rook {
                match ct.color {
                    Color::Black => {
                        if mv.t_pos == (Pos { row: 7, col: 0 }) {
                            b.can_castle_qs[ct.color.idx()] = false;
                        }
                        if mv.t_pos == (Pos { row: 7, col: 7 }) {
                            b.can_castle_ks[ct.color.idx()] = false;
                        }
                    },
                    Color::White => {
                        if mv.t_pos == (Pos { row: 0, col: 0 }) {
                            b.can_castle_qs[ct.color.idx()] = false;
                        }
                        if mv.t_pos == (Pos { row: 0, col: 7 }) {
                            b.can_castle_ks[ct.color.idx()] = false;
                        }
                    },
                }
            }
        }

        b.stored_value = None;

        proof {
            broadcast use vstd::array::group_array_axioms;

            lemma_apply_move_wf(*self, *mv);
            assert(b =~= spec_apply_move(*self, *mv));
        }
        b
    }
}

/// The tile on each square after a move, stated square by square.
pub open spec fn spec_tile_after_at(b: Board, mv: Move, p: Pos) -> Option<Tile> {
    let moved = spec_moved_tile(b, mv);
    match spec_castle_slide(b, mv) {
        Some((row, fc, tc)) => {
            let corner = Pos { row: row as i8, col: fc as i8 };
            let rook_dest = Pos { row: row as i8, col: tc as i8 };
            if p == corner {
                None
            } else if p == rook_dest {
                if corner == mv.f_pos {
                    None
                } else {
                    b.spec_at(corner)
                }
            } else if p == mv.t_pos {
                Some(moved)
            } else if p == mv.f_pos {
                None
            } else {
                b.spec_at(p)
            }
        },
        None => if p == mv.t_pos {
            Some(moved)
        } else if p == mv.f_pos {
            None
        } else {
            b.spec_at(p)
        },
    }
}

/// `spec_tiles_after` read back square by square is `spec_tile_after_at`.
pub proof fn lemma_tiles_after_at(b: Board, mv: Move)
    requires
        mv.f_pos.valid(),
        mv.t_pos.valid(),
        mv.f_pos != mv.t_pos,
    ensures
        forall|p: Pos|
            p.valid() ==> #[trigger] spec_tiles_after(b, mv)[p.row as int][p.col as int]
                == spec_tile_after_at(b, mv, p),
{
    broadcast use vstd::array::group_array_axioms;

    let moved = spec_moved_tile(b, mv);
    let ts1 = spec_set_tile(b.tiles, mv.t_pos.row as int, mv.t_pos.col as int, Some(moved));
    let ts2 = spec_set_tile(ts1, mv.f_pos.row as int, mv.f_pos.col as int, None);
    lemma_set_tile_at(b.tiles, mv.t_pos.row as int, mv.t_pos.col as int, Some(moved));
    lemma_set_tile_at(ts1, mv.f_pos.row as int, mv.f_pos.col as int, None);
    match spec_castle_slide(b, mv) {
        Some((row, fc, tc)) => {
            let ts3 = spec_set_tile(ts2, row, tc, ts2[row][fc]);
            lemma_set_tile_at(ts2, row, tc, ts2[row][fc]);
            lemma_set_tile_at(ts3, row, fc, None);
        },
        None => {},
    }
}

/// Applying a valid move to a well-formed board yields a well-formed
/// board: the king caches still point at the unique kings and the memo
/// slot is empty.
pub proof fn lemma_apply_move_wf(b: Board, mv: Move)
    requires
        b.wf(),
        spec_move_ok(b, mv),
    ensures
        spec_apply_move(b, mv).wf(),
{
    broadcast use vstd::array::group_array_axioms;

    let moved = spec_moved_tile(b, mv);
    let ft = b.spec_at(mv.f_pos).unwrap();
    let r = spec_apply_move(b, mv);
    lemma_tiles_after_at(b, mv);
    assert(forall|p: Pos|
        p.valid() ==> #[trigger] r.spec_at(p) == spec_tile_after_at(b, mv, p));

    // The source square holds a king exactly when the mover is a king.
    if moved.piece == Piece::King {
        assert(ft.piece == Piece::King);
        assert(mv.f_pos == b.king_pos[ft.color.spec_idx()]);
    }
    // Neither old king cache square is overwritten except the mover's own.
    assert forall|s: int| 0 <= s < 2 implies r.spec_at(#[trigger] r.king_pos[s]) == Some(
        Tile { piece: Piece::King, color: if s == 0 { Color::Black } else { Color::White } },
    ) && r.king_pos[s].valid() by {
        let c: Color = if s == 0 { Color::Black } else { Color::White };
        let kp = b.king_pos[s];
        assert(b.spec_at(kp) == Some(Tile { piece: Piece::King, color: c }));
        if moved.piece == Piece::King && moved.color == c {
            assert(r.king_pos[s] == mv.t_pos);
            assert(r.spec_at(mv.t_pos) == spec_tile_after_at(b, mv, mv.t_pos));
        } else {
            assert(r.king_pos[s] == kp);
            assert(kp != mv.t_pos);
            // A non-king mover cannot start on a king square; a king
            // mover of the other side cannot either.
            assert(kp != mv.f_pos);
            match spec_castle_slide(b, mv) {
                Some((row, fc, tc)) => {
                    let corner = Pos { row: row as i8, col: fc as i8 };
                    let rook_dest = Pos { row: row as i8, col: tc as i8 };
                    assert(b.tiles[row][tc] == None::<Tile>);
                    assert(kp != rook_dest);
                    assert(kp != corner);
                },
                None => {},
            }
            assert(r.spec_at(kp) == b.spec_at(kp));
        }
    }
    // Uniqueness: any king on the new grid stands on its cache square.
    assert forall|p: Pos|
        p.valid() implies match #[trigger] r.spec_at(p) {
        Some(t) => t.piece == Piece::King ==> p == r.king_pos[t.color.spec_idx()],
        None => true,
    } by {
        assert(r.spec_at(p) == spec_tile_after_at(b, mv, p));
        match r.spec_at(p) {
            Some(t) => {
                if t.piece == Piece::King {
                    match spec_castle_slide(b, mv) {
                        Some((row, fc, tc)) => {
                            let corner = Pos { row: row as i8, col: fc as i8 };
                            let rook_dest = Pos { row: row as i8, col: tc as i8 };
                            if p == rook_dest && corner != mv.f_pos {
                                // The slid tile comes from the corner, which
                                // is no king square.
                                assert(b.spec_at(corner) == Some(t));
                                assert(corner == b.king_pos[t.color.spec_idx()]);
                                assert(false);
                            } else if p == mv.t_pos {
                                assert(t == moved);
                            } else {
                                assert(b.spec_at(p) == Some(t));
                                assert(p == b.king_pos[t.color.spec_idx()]);
                            }
                        },
                        None => {
                            if p == mv.t_pos {
                                assert(t == moved);
                            } else {
                                assert(b.spec_at(p) == Some(t));
                                assert(p == b.king_pos[t.color.spec_idx()]);
                            }
                        },
                    }
                }
            },
            None => {},
        }
    }
}

/// What `Tile::from_char` accepts: exactly the twelve piece letters.
pub open spec fn spec_tile_from_char(c: char) -> Option<Tile> {
    if c == 'p' {
        Some(Tile { piece: Piece::Pawn, color: Color::Black })
    } else if c == 'n' {
        Some(Tile { piece: Piece::Knight, color: Color::Black })
    } else if c == 'b' {
        Some(Tile { piece: Piece::Bishop, color: Color::Black })
    } else if c == 'r' {
        Some(Tile { piece: Piece::Rook, color: Color::Black })
    } else if c == 'k' {
        Some(Tile { piece: Piece::King, color: Color::Black })
    } else if c == 'q' {
        Some(Tile { piece: Piece::Queen, color: Color::Black })
    } else if c == 'P' {
        Some(Tile { piece: Piece::Pawn, color: Color::White })
    } else if c == 'N' {
        Some(Tile { piece: Piece::Knight, color: Color::White })
    } else if c == 'B' {
        Some(Tile { piece: Piece::Bishop, color: Color::White })
    } else if c == 'R' {
        Some(Tile { piece: Piece::Rook, color: Color::White })
    } else if c == 'K' {
        Some(Tile { piece: Piece::King, color: Color::White })
    } else if c == 'Q' {
        Some(Tile { piece: Piece::Queen, color: Color::White })
    } else {
        None
    }
}

/// Folds an uppercase file letter to lowercase; other characters are
/// kept.
pub open spec fn spec_file_fold(c: char) -> char {
    if c == 'A' {
        'a'
    } else if c == 'B' {
        'b'
    } else if c == 'C' {
        'c'
    } else if c == 'D' {
        'd'
    } else if c == 'E' {
        'e'
    } else if c == 'F' {
        'f'
    } else if c == 'G' {
        'g'
    } else if c == 'H' {
        'h'
    } else {
        c
    }
}

/// What a two-character square name parses to: a file letter `a`-`h`
/// in either case and a rank digit `1`-`8`.
pub open spec fn spec_parse_pos(s: Seq<char>) -> Option<Pos> {
    if s.len() != 2 {
        None
    } else {
        let x = spec_file_fold(s[0]);
        let y = s[1];
        if 'a' <= x && x <= 'h' && '1' <= y && y <= '8' {
            Some(
                Pos {
                    col: (x as int - 'a' as int) as i8,
                    row: (y as int - '1' as int) as i8,
                },
            )
        } else {
            None
        }
    }
}

/// The file letter of a column.
pub open spec fn spec_file_char(col: int) -> char {
    if col == 0 {
        'a'
    } else if col == 1 {
        'b'
    } else if col == 2 {
        'c'
    } else if col == 3 {
        'd'
    } else if col == 4 {
        'e'
    } else if col == 5 {
        'f'
    } else if col == 6 {
        'g'
    } else {
        'h'
    }
}

/// The rank digit of a row.
pub open spec fn spec_rank_char(row: int) -> char {
    if row == 0 {
        '1'
    } else if row == 1 {
        '2'
    } else if row == 2 {
        '3'
    } else if row == 3 {
        '4'
    } else if row == 4 {
        '5'
    } else if row == 5 {
        '6'
    } else if row == 6 {
        '7'
    } else {
        '8'
    }
}

/// The two-character name of a square.
pub open spec fn spec_pos_str(p: Pos) -> Seq<char> {
    seq![spec_file_char(p.col as int), spec_rank_char(p.row as int)]
}

/// The letter of a promotion piece, as a move suffix.
pub open spec fn spec_promo_char(p: Piece) -> char {
    p.spec_char()
}

/// What a promotion suffix parses to.
pub open spec fn spec_parse_promo(c: char) -> Option<Piece> {
    if c == 'q' {
        Some(Piece::Queen)
    } else if c == 'r' {
        Some(Piece::Rook)
    } else if c == 'b' {
        Some(Piece::Bishop)
    } else if c == 'n' {
        Some(Piece::Knight)
    } else {
        None
    }
}

/// The text of a move: source and destination squares, and the
/// promotion letter when the move promotes.
pub open spec fn spec_move_str(m: Move) -> Seq<char> {
    spec_pos_str(m.f_pos) + spec_pos_str(m.t_pos) + (match m.promotion {
        Some(p) => seq![spec_promo_char(p)],
        None => Seq::empty(),
    })
}

/// What a move text parses to: four characters for the squares, and
/// an optional fifth naming the piece a pawn promotes to.
pub open spec fn spec_parse_move(s: Seq<char>) -> Option<Move> {
    if s.len() != 4 && s.len() != 5 {
        None
    } else {
        match (spec_parse_pos(s.subrange(0, 2)), spec_parse_pos(s.subrange(2, 4))) {
            (Some(f), Some(t)) => if s.len() == 4 {
                Some(Move { f_pos: f, t_pos: t, promotion: None })
            } else {
                match spec_parse_promo(s[4]) {
                    Some(p) => Some(Move { f_pos: f, t_pos: t, promotion: Some(p) }),
                    None => None,
                }
            },
            _ => None,
        }
    }
}

impl Pos {
    /// Reads a square name such as `e4`; the file letter may be
    /// uppercase.
    pub fn from_coord(s: &str) -> (r: Option<Pos>)
        ensures
            r == spec_parse_pos(s@),
            r matches Some(p) ==> p.valid(),
    {
        if s.unicode_len() != 2 {
            return None;
        }
        let x0 = s.get_char(0);
        let x = match x0 {
            'A' => 'a',
            'B' => 'b',
            'C' => 'c',
            'D' => 'd',
            'E' => 'e',
            'F' => 'f',
            'G' => 'g',
            'H' => 'h',
            _ => x0,
        };
        let y = s.get_char(1);
        if 'a' <= x && x <= 'h' && '1' <= y && y <= '8' {
            let col: i8 = (x as u32 - 'a' as u32) as i8;
            let row: i8 = (y as u32 - '1' as u32) as i8;
            Some(Pos { col, row })
        } else {
            None
        }
    }

    /// Prints the square's name, lowercase.
    pub fn to_string(&self) -> (r: String)
        requires
            self.valid(),
        ensures
            r@ == spec_pos_str(*self),
    {
        let mut s = String::new();
        let file: char = match self.col {
            0 => 'a',
            1 => 'b',
            2 => 'c',
            3 => 'd',
            4 => 'e',
            5 => 'f',
            6 => 'g',
            _ => 'h',
        };
        let rank: char = match self.row {
            0 => '1',
            1 => '2',
            2 => '3',
            3 => '4',
            4 => '5',
            5 => '6',
            6 => '7',
            _ => '8',
        };
        crate::fen::push_char(&mut s, file);
        crate::fen::push_char(&mut s, rank);
        proof {
            assert(s@ =~= spec_pos_str(*self));
        }
        s
    }
}

impl Move {
    /// Both squares are on the board and the promotion, when marked,
    /// is a piece a pawn can become.
    pub open spec fn valid(self) -> bool {
        &&& self.f_pos.valid()
        &&& self.t_pos.valid()
        &&& match self.promotion {
            Some(p) => p == Piece::Queen || p == Piece::Rook || p == Piece::Bishop || p
                == Piece::Knight,
            None => true,
        }
    }

    /// Reads a move text such as `e2e4` or `e7e8q`.
    pub fn parse(s: &str) -> (r: Result<Move, ParseError>)
        ensures
            match r {
                Ok(m) => spec_parse_move(s@) == Some(m) && m.valid(),
                Err(_) => spec_parse_move(s@) is None,
            },
    {
        let n = s.unicode_len();
        if n != 4 && n != 5 {
            return Err(ParseError);
        }
        let f = match Pos::from_coord(s.substring_char(0, 2)) {
            Some(p) => p,
            None => {
                return Err(ParseError);
            },
        };
        let t = match Pos::from_coord(s.substring_char(2, 4)) {
            Some(p) => p,
            None => {
                return Err(ParseError);
            },
        };
        if n == 4 {
            return Ok(Move { f_pos: f, t_pos: t, promotion: None });
        }
        let promotion = match s.get_char(4) {
            'q' => Piece::Queen,
            'r' => Piece::Rook,
            'b' => Piece::Bishop,
            'n' => Piece::Knight,
            _ => {
                return Err(ParseError);
            },
        };
        Ok(Move { f_pos: f, t_pos: t, promotion: Some(promotion) })
    }

    /// Prints the move as source and destination squares, with the
    /// promotion letter when the move promotes.
    pub fn to_string(&self) -> (r: String)
        requires
            self.valid(),
        ensures
            r@ == spec_move_str(*self),
    {
        let mut s = self.f_pos.to_string();
        let t = self.t_pos.to_string();
        s.append(t.as_str());
        match self.promotion {
            Some(p) => {
                crate::fen::push_char(&mut s, p.as_char());
            },
            None => {},
        }
        proof {
            assert(s@ =~= spec_move_str(*self));
        }
        s
    }
}

/// Reading a square's printed name gives the square back.
pub proof fn lemma_pos_text_round_trip(p: Pos)
    requires
        p.valid(),
    ensures
        spec_parse_pos(spec_pos_str(p)) == Some(p),
{
}

/// Reading a move's printed text gives the move back.
pub proof fn lemma_move_text_round_trip(m: Move)
    requires
        m.valid(),
    ensures
        spec_parse_move(spec_move_str(m)) == Some(m),
{
    let s = spec_move_str(m);
    lemma_pos_text_round_trip(m.f_pos);
    lemma_pos_text_round_trip(m.t_pos);
    assert(s.subrange(0, 2) =~= spec_pos_str(m.f_pos));
    assert(s.subrange(2, 4) =~= spec_pos_str(m.t_pos));
    match m.promotion {
        Some(p) => {
            assert(s[4] == spec_promo_char(p));
        },
        None => {},
    }
}

} // verus!
