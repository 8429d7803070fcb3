//! Reading and writing positions in Forsyth–Edwards Notation: the
//! first three fields (placement, side to move, castling) are parsed,
//! anything after them is tolerated and ignored; printing emits the
//! four fields with the fixed tail `" - 0 0"`.

use vstd::prelude::*;

use crate::board::{
    spec_color_from_char, spec_tile_from_char, Board, Color, ParseError, Piece, Pos, Tile,
};

verus! {

/// The whitespace that separates FEN fields.
pub open spec fn spec_is_ws(c: char) -> bool {
    c == ' ' || c == '\t' || c == '\n' || c == '\r'
}

/// The first index at or after `i` holding a non-whitespace character.
pub open spec fn spec_skip_ws(s: Seq<char>, i: int) -> int
    decreases s.len() - i,
{
    if i < 0 || i >= s.len() || !spec_is_ws(s[i]) {
        i
    } else {
        spec_skip_ws(s, i + 1)
    }
}

/// The first index at or after `i` holding whitespace, or the end.
pub open spec fn spec_tok_end(s: Seq<char>, i: int) -> int
    decreases s.len() - i,
{
    if i < 0 || i >= s.len() || spec_is_ws(s[i]) {
        i
    } else {
        spec_tok_end(s, i + 1)
    }
}

proof fn lemma_skip_ws_props(s: Seq<char>, i: int)
    requires
        0 <= i <= s.len(),
    ensures
        i <= spec_skip_ws(s, i) <= s.len(),
        spec_skip_ws(s, i) < s.len() ==> !spec_is_ws(s[spec_skip_ws(s, i)]),
    decreases s.len() - i,
{
    if i < s.len() && spec_is_ws(s[i]) {
        lemma_skip_ws_props(s, i + 1);
    }
}

proof fn lemma_tok_end_props(s: Seq<char>, i: int)
    requires
        0 <= i <= s.len(),
    ensures
        i <= spec_tok_end(s, i) <= s.len(),
        spec_tok_end(s, i) < s.len() ==> spec_is_ws(s[spec_tok_end(s, i)]),
    decreases s.len() - i,
{
    if i < s.len() && !spec_is_ws(s[i]) {
        lemma_tok_end_props(s, i + 1);
    }
}

/// Is the character a decimal digit?
pub open spec fn spec_is_digit(c: char) -> bool {
    '0' <= c && c <= '9'
}

/// The placement parser's one step: a `/` closes a rank of exactly
/// eight columns, a digit skips that many columns, a piece letter
/// places a tile, anything else fails. Kings are recorded, a second
/// king of one side fails. The result is the placed tiles and the two
/// king squares.
pub open spec fn spec_pr(
    f: Seq<char>,
    i: int,
    row: int,
    col: int,
    acc: Map<(int, int), Tile>,
    kb: Option<Pos>,
    kw: Option<Pos>,
) -> Option<(Map<(int, int), Tile>, Pos, Pos)>
    decreases f.len() - i,
{
    if i < 0 || i >= f.len() {
        if col == 8 && row == 7 && kb is Some && kw is Some {
            Some((acc, kb.unwrap(), kw.unwrap()))
        } else {
            None
        }
    } else {
        let c = f[i];
        if c == '/' {
            if col != 8 || row >= 7 {
                None
            } else {
                spec_pr(f, i + 1, row + 1, 0, acc, kb, kw)
            }
        } else if spec_is_digit(c) {
            let d = c as int - '0' as int;
            if col + d > 8 {
                None
            } else {
                spec_pr(f, i + 1, row, col + d, acc, kb, kw)
            }
        } else {
            match spec_tile_from_char(c) {
                None => None,
                Some(t) => if col >= 8 {
                    None
                } else {
                    let p = Pos { row: (7 - row) as i8, col: col as i8 };
                    let acc2 = acc.insert(((7 - row), col), t);
                    if t.piece == Piece::King && t.color == Color::Black {
                        if kb is Some {
                            None
                        } else {
                            spec_pr(f, i + 1, row, col + 1, acc2, Some(p), kw)
                        }
                    } else if t.piece == Piece::King && t.color == Color::White {
                        if kw is Some {
                            None
                        } else {
                            spec_pr(f, i + 1, row, col + 1, acc2, kb, Some(p))
                        }
                    } else {
                        spec_pr(f, i + 1, row, col + 1, acc2, kb, kw)
                    }
                },
            }
        }
    }
}

/// The whole placement field, parsed from its start.
pub open spec fn spec_parse_ranks(f: Seq<char>) -> Option<(Map<(int, int), Tile>, Pos, Pos)> {
    spec_pr(f, 0, 0, 0, Map::empty(), None, None)
}

/// The side-to-move field: exactly one letter of `w`, `W`, `b`, `B`.
pub open spec fn spec_parse_player(f: Seq<char>) -> Option<Color> {
    if f.len() != 1 {
        None
    } else {
        spec_color_from_char(f[0])
    }
}

/// Does the sequence hold the character anywhere?
pub open spec fn spec_has_char(f: Seq<char>, c: char) -> bool {
    exists|i: int| 0 <= i < f.len() && f[i] == c
}

/// The three fields of the FEN string: where each starts and ends.
pub open spec fn spec_field1(s: Seq<char>) -> (int, int) {
    let i1 = spec_skip_ws(s, 0);
    (i1, spec_tok_end(s, i1))
}

pub open spec fn spec_field2(s: Seq<char>) -> (int, int) {
    let i2 = spec_skip_ws(s, spec_field1(s).1);
    (i2, spec_tok_end(s, i2))
}

pub open spec fn spec_field3(s: Seq<char>) -> (int, int) {
    let i3 = spec_skip_ws(s, spec_field2(s).1);
    (i3, spec_tok_end(s, i3))
}

/// The parsed placement of the FEN string, when all of the first
/// three fields are present and the placement is well formed.
pub open spec fn spec_fen_ranks(s: Seq<char>) -> Option<(Map<(int, int), Tile>, Pos, Pos)> {
    let (i1, e1) = spec_field1(s);
    if i1 == e1 {
        None
    } else {
        spec_parse_ranks(s.subrange(i1, e1))
    }
}

/// The parsed side to move of the FEN string.
pub open spec fn spec_fen_player(s: Seq<char>) -> Option<Color> {
    let (i2, e2) = spec_field2(s);
    if i2 == e2 {
        None
    } else {
        spec_parse_player(s.subrange(i2, e2))
    }
}

/// Does the FEN string parse: placement, side and a castling field.
pub open spec fn spec_fen_ok(s: Seq<char>) -> bool {
    &&& spec_fen_ranks(s) is Some
    &&& spec_fen_player(s) is Some
    &&& spec_field3(s).0 != spec_field3(s).1
}

/// Reading a placement map as a grid: the tile on `(row, col)`.
pub open spec fn spec_map_tile(m: Map<(int, int), Tile>, row: int, col: int) -> Option<Tile> {
    if m.contains_key((row, col)) {
        Some(m[(row, col)])
    } else {
        None
    }
}

/// The tile a successful parse puts on `(row, col)`.
pub open spec fn spec_fen_tile(s: Seq<char>, row: int, col: int) -> Option<Tile> {
    spec_map_tile(spec_fen_ranks(s).unwrap().0, row, col)
}

/// The castling right a successful parse grants: `which` is the
/// letter of the right in question.
pub open spec fn spec_fen_castle(s: Seq<char>, which: char) -> bool {
    let (i3, e3) = spec_field3(s);
    spec_has_char(s.subrange(i3, e3), which)
}

fn is_ws_char(c: char) -> (r: bool)
    ensures
        r == spec_is_ws(c),
{
    c == ' ' || c == '\t' || c == '\n' || c == '\r'
}

/// Advances past whitespace; mirrors `spec_skip_ws`.
fn scan_ws(s: &str, from: usize) -> (r: usize)
    requires
        from <= s@.len(),
    ensures
        r == spec_skip_ws(s@, from as int),
        from <= r <= s@.len(),
{
    let n = s.unicode_len();
    let mut i = from;
    while i < n && is_ws_char(s.get_char(i))
        invariant
            from <= i <= n,
            n == s@.len(),
            spec_skip_ws(s@, from as int) == spec_skip_ws(s@, i as int),
        decreases n - i,
    {
        i = i + 1;
    }
    i
}

/// Advances to the end of the token; mirrors `spec_tok_end`.
fn scan_tok(s: &str, from: usize) -> (r: usize)
    requires
        from <= s@.len(),
    ensures
        r == spec_tok_end(s@, from as int),
        from <= r <= s@.len(),
{
    let n = s.unicode_len();
    let mut i = from;
    while i < n && !is_ws_char(s.get_char(i))
        invariant
            from <= i <= n,
            n == s@.len(),
            spec_tok_end(s@, from as int) == spec_tok_end(s@, i as int),
        decreases n - i,
    {
        i = i + 1;
    }
    i
}

/// Does the field hold the character anywhere?
fn has_char(f: &str, c: char) -> (r: bool)
    ensures
        r == spec_has_char(f@, c),
{
    let n = f.unicode_len();
    let mut i: usize = 0;
    while i < n
        invariant
            i <= n,
            n == f@.len(),
            forall|j: int| 0 <= j < i ==> f@[j] != c,
        decreases n - i,
    {
        if f.get_char(i) == c {
            return true;
        }
        i = i + 1;
    }
    false
}

/// Parses the placement field; mirrors `spec_parse_ranks`.
#[verifier::rlimit(100)]
fn parse_ranks(f: &str) -> (r: Result<([[Option<Tile>; 8]; 8], Pos, Pos), ParseError>)
    ensures
        match r {
            Ok((tiles, kb, kw)) => {
                &&& spec_parse_ranks(f@) is Some
                &&& kb == spec_parse_ranks(f@).unwrap().1
                &&& kw == spec_parse_ranks(f@).unwrap().2
                &&& forall|row: int, col: int|
                    0 <= row < 8 && 0 <= col < 8 ==> #[trigger] tiles[row][col] == spec_map_tile(
                        spec_parse_ranks(f@).unwrap().0,
                        row,
                        col,
                    )
            },
            Err(_) => spec_parse_ranks(f@) is None,
        },
{
    let n = f.unicode_len();
    let mut tiles: [[Option<Tile>; 8]; 8] = [[None;8];8];
    let mut kb: Option<Pos> = None;
    let mut kw: Option<Pos> = None;
    let mut row: usize = 0;
    let mut col: usize = 0;
    let mut i: usize = 0;
    let ghost acc0: Map<(int, int), Tile> = Map::empty();
    let ghost mut acc: Map<(int, int), Tile> = acc0;

    proof {
        assert forall|rr: int, cc: int| 0 <= rr < 8 && 0 <= cc < 8 implies #[trigger] tiles[rr][cc]
            == spec_map_tile(acc, rr, cc) by {
            broadcast use vstd::array::group_array_axioms;

        }
    }

    while i < n
        invariant
            i <= n,
            n == f@.len(),
            row <= 7,
            col <= 8,
            spec_parse_ranks(f@) == spec_pr(f@, i as int, row as int, col as int, acc, kb, kw),
            forall|rr: int, cc: int|
                0 <= rr < 8 && 0 <= cc < 8 ==> #[trigger] tiles[rr][cc] == spec_map_tile(
                    acc,
                    rr,
                    cc,
                ),
        decreases n - i,
    {
        let c = f.get_char(i);
        if c == '/' {
            if col != 8 || row >= 7 {
                return Err(ParseError);
            }
            row = row + 1;
            col = 0;
        } else if c >= '0' && c <= '9' {
            let d: usize = (c as u32 - '0' as u32) as usize;
            if col + d > 8 {
                return Err(ParseError);
            }
            col = col + d;
        } else {
            match Tile::from_char(c) {
                None => {
                    return Err(ParseError);
                },
                Some(t) => {
                    if col >= 8 {
                        return Err(ParseError);
                    }
                    let p = Pos { row: (7 - row) as i8, col: col as i8 };
                    let ghost tiles0 = tiles;
                    crate::board::set_tile(&mut tiles, 7 - row, col, Some(t));
                    proof {
                        crate::board::lemma_set_tile_at(
                            tiles0,
                            7 - row as int,
                            col as int,
                            Some(t),
                        );
                        acc = acc.insert(((7 - row) as int, col as int), t);
                    }
                    if t.piece == Piece::King && t.color == Color::Black {
                        if kb.is_some() {
                            return Err(ParseError);
                        }
                        kb = Some(p);
                    } else if t.piece == Piece::King && t.color == Color::White {
                        if kw.is_some() {
                            return Err(ParseError);
                        }
                        kw = Some(p);
                    }
                    col = col + 1;
                },
            }
        }
        i = i + 1;
    }
    if col != 8 || row != 7 {
        return Err(ParseError);
    }
    match (kb, kw) {
        (Some(pb), Some(pw)) => Ok((tiles, pb, pw)),
        _ => Err(ParseError),
    }
}

/// The parser's state is consistent: recorded kings stand in the map,
/// the map holds no unrecorded king, every key is on the board, and
/// every key lies strictly before the cursor.
pub open spec fn spec_pr_inv(
    row: int,
    col: int,
    acc: Map<(int, int), Tile>,
    kb: Option<Pos>,
    kw: Option<Pos>,
) -> bool {
    &&& 0 <= row <= 7
    &&& 0 <= col <= 8
    &&& forall|k: (int, int)|
        acc.contains_key(k) ==> 0 <= k.0 < 8 && 0 <= k.1 < 8 && (k.0 > 7 - row || (k.0 == 7 - row
            && k.1 < col))
    &&& match kb {
        Some(p) => p.valid() && acc.contains_key((p.row as int, p.col as int)) && acc[(
            p.row as int,
            p.col as int,
        )] == (Tile { piece: Piece::King, color: Color::Black }),
        None => true,
    }
    &&& match kw {
        Some(p) => p.valid() && acc.contains_key((p.row as int, p.col as int)) && acc[(
            p.row as int,
            p.col as int,
        )] == (Tile { piece: Piece::King, color: Color::White }),
        None => true,
    }
    &&& forall|k: (int, int)|
        acc.contains_key(k) && #[trigger] acc[k] == (Tile {
            piece: Piece::King,
            color: Color::Black,
        }) ==> kb == Some(Pos { row: k.0 as i8, col: k.1 as i8 })
    &&& forall|k: (int, int)|
        acc.contains_key(k) && #[trigger] acc[k] == (Tile {
            piece: Piece::King,
            color: Color::White,
        }) ==> kw == Some(Pos { row: k.0 as i8, col: k.1 as i8 })
}

/// What a successful placement parse guarantees: every key on the
/// board, and each king standing, uniquely, on its reported square.
pub proof fn lemma_pr_kings(
    f: Seq<char>,
    i: int,
    row: int,
    col: int,
    acc: Map<(int, int), Tile>,
    kb: Option<Pos>,
    kw: Option<Pos>,
)
    requires
        spec_pr_inv(row, col, acc, kb, kw),
        spec_pr(f, i, row, col, acc, kb, kw) is Some,
    ensures
        ({
            let (m, pb, pw) = spec_pr(f, i, row, col, acc, kb, kw).unwrap();
            &&& pb.valid()
            &&& pw.valid()
            &&& spec_map_tile(m, pb.row as int, pb.col as int) == Some(
                Tile { piece: Piece::King, color: Color::Black },
            )
            &&& spec_map_tile(m, pw.row as int, pw.col as int) == Some(
                Tile { piece: Piece::King, color: Color::White },
            )
            &&& forall|k: (int, int)|
                m.contains_key(k) ==> 0 <= k.0 < 8 && 0 <= k.1 < 8
            &&& forall|k: (int, int)|
                m.contains_key(k) && #[trigger] m[k] == (Tile {
                    piece: Piece::King,
                    color: Color::Black,
                }) ==> k == (pb.row as int, pb.col as int)
            &&& forall|k: (int, int)|
                m.contains_key(k) && #[trigger] m[k] == (Tile {
                    piece: Piece::King,
                    color: Color::White,
                }) ==> k == (pw.row as int, pw.col as int)
        }),
    decreases f.len() - i,
{
    if i < 0 || i >= f.len() {
    } else {
        let c = f[i];
        if c == '/' {
            lemma_pr_kings(f, i + 1, row + 1, 0, acc, kb, kw);
        } else if spec_is_digit(c) {
            let d = c as int - '0' as int;
            lemma_pr_kings(f, i + 1, row, col + d, acc, kb, kw);
        } else {
            match spec_tile_from_char(c) {
                None => {},
                Some(t) => {
                    let p = Pos { row: (7 - row) as i8, col: col as i8 };
                    let acc2 = acc.insert(((7 - row), col), t);
                    if t.piece == Piece::King && t.color == Color::Black {
                        if !(kb is Some) {
                            lemma_pr_kings(f, i + 1, row, col + 1, acc2, Some(p), kw);
                        }
                    } else if t.piece == Piece::King && t.color == Color::White {
                        if !(kw is Some) {
                            lemma_pr_kings(f, i + 1, row, col + 1, acc2, kb, Some(p));
                        }
                    } else {
                        lemma_pr_kings(f, i + 1, row, col + 1, acc2, kb, kw);
                    }
                },
            }
        }
    }
}

impl Board {
    /// Parses a position from its FEN text: piece placement, side to
    /// move and castling rights; later fields are ignored. Fails when
    /// a field is missing, a rank does not span eight columns, a
    /// letter is unknown, the side-to-move field is not one letter of
    /// `w`/`b` in either case, or either side does not have exactly
    /// one king.
    pub fn from_fen(s: &str) -> (r: Result<Board, ParseError>)
        ensures
            r is Ok <==> spec_fen_ok(s@),
            r matches Ok(b) ==> {
                &&& b.wf()
                &&& forall|row: int, col: int|
                    0 <= row < 8 && 0 <= col < 8 ==> b.tiles[row][col] == spec_fen_tile(
                        s@,
                        row,
                        col,
                    )
                &&& Some(b.player) == spec_fen_player(s@)
                &&& b.king_pos[0] == spec_fen_ranks(s@).unwrap().1
                &&& b.king_pos[1] == spec_fen_ranks(s@).unwrap().2
                &&& b.can_castle_ks[0] == spec_fen_castle(s@, 'k')
                &&& b.can_castle_ks[1] == spec_fen_castle(s@, 'K')
                &&& b.can_castle_qs[0] == spec_fen_castle(s@, 'q')
                &&& b.can_castle_qs[1] == spec_fen_castle(s@, 'Q')
                &&& b.stored_value is None
                &&& spec_parsed_board(s@, b)
                &&& b == spec_board_of_fen(s@)
            },
    {
        let n = s.unicode_len();
        let i1 = scan_ws(s, 0);
        let e1 = scan_tok(s, i1);
        if i1 == e1 {
            return Err(ParseError);
        }
        let f1 = s.substring_char(i1, e1);
        let parsed = parse_ranks(f1);
        let (tiles, pb, pw) = match parsed {
            Ok(v) => v,
            Err(_) => {
                return Err(ParseError);
            },
        };

        let i2 = scan_ws(s, e1);
        let e2 = scan_tok(s, i2);
        if i2 == e2 {
            return Err(ParseError);
        }
        let f2 = s.substring_char(i2, e2);
        if f2.unicode_len() != 1 {
            return Err(ParseError);
        }
        let player = match Color::from_char(f2.get_char(0)) {
            Some(c) => c,
            None => {
                return Err(ParseError);
            },
        };

        let i3 = scan_ws(s, e2);
        let e3 = scan_tok(s, i3);
        if i3 == e3 {
            return Err(ParseError);
        }
        let f3 = s.substring_char(i3, e3);
        let can_castle_ks: [bool; 2] = [has_char(f3, 'k'), has_char(f3, 'K')];
        let can_castle_qs: [bool; 2] = [has_char(f3, 'q'), has_char(f3, 'Q')];

        let b = Board {
            tiles,
            player,
            king_pos: [pb, pw],
            can_castle_qs,
            can_castle_ks,
            stored_value: None,
        };
        proof {
            broadcast use vstd::array::group_array_axioms;

            assert(Map::<(int, int), Tile>::empty() =~= Map::empty());
            lemma_pr_kings(f1@, 0, 0, 0, Map::empty(), None, None);
            let m = spec_parse_ranks(f1@).unwrap().0;
            assert forall|p: Pos|
                p.valid() implies match b.spec_at(p) {
                Some(t) => t.piece == Piece::King ==> p == b.king_pos[t.color.spec_idx()],
                None => true,
            } by {
                assert(b.tiles[p.row as int][p.col as int] == spec_map_tile(
                    m,
                    p.row as int,
                    p.col as int,
                ));
            }
            assert(spec_parsed_board(s@, b));
            lemma_parsed_board_unique(s@, b, spec_board_of_fen(s@));
        }
        Ok(b)
    }
}

/// The digit character of a blank run's length.
pub open spec fn spec_digit_char(n: int) -> char {
    if n == 1 {
        '1'
    } else if n == 2 {
        '2'
    } else if n == 3 {
        '3'
    } else if n == 4 {
        '4'
    } else if n == 5 {
        '5'
    } else if n == 6 {
        '6'
    } else if n == 7 {
        '7'
    } else if n == 8 {
        '8'
    } else {
        '0'
    }
}

/// One rank printed from column `c` on, with `blanks` empty columns
/// pending: maximal blank runs become one digit, tiles their letter.
pub open spec fn spec_rank_str(b: Board, r: int, c: int, blanks: int) -> Seq<char>
    decreases 8 - c,
{
    if c < 0 || c >= 8 {
        if blanks > 0 {
            seq![spec_digit_char(blanks)]
        } else {
            Seq::empty()
        }
    } else {
        match b.tiles[r][c] {
            Some(t) => (if blanks > 0 {
                seq![spec_digit_char(blanks)]
            } else {
                Seq::empty()
            }) + seq![t.spec_char()] + spec_rank_str(b, r, c + 1, 0),
            None => spec_rank_str(b, r, c + 1, blanks + 1),
        }
    }
}

/// The ranks from `r` down to rank zero, each followed by `/` except
/// the last.
pub open spec fn spec_ranks_str(b: Board, r: int) -> Seq<char>
    decreases r + 1,
{
    if r < 0 {
        Seq::empty()
    } else {
        spec_rank_str(b, r, 0, 0) + (if r > 0 {
            seq!['/']
        } else {
            Seq::empty()
        }) + spec_ranks_str(b, r - 1)
    }
}

/// The castling field: the rights still held in `KQkq` order, or `-`.
pub open spec fn spec_castle_str(b: Board) -> Seq<char> {
    if !b.can_castle_ks[0] && !b.can_castle_ks[1] && !b.can_castle_qs[0] && !b.can_castle_qs[1] {
        seq!['-']
    } else {
        (if b.can_castle_ks[1] {
            seq!['K']
        } else {
            Seq::empty()
        }) + (if b.can_castle_qs[1] {
            seq!['Q']
        } else {
            Seq::empty()
        }) + (if b.can_castle_ks[0] {
            seq!['k']
        } else {
            Seq::empty()
        }) + (if b.can_castle_qs[0] {
            seq!['q']
        } else {
            Seq::empty()
        })
    }
}

/// The whole FEN text of a board: placement, side, castling, and the
/// fixed tail in place of the untracked en-passant square and clocks.
pub open spec fn spec_fen_str(b: Board) -> Seq<char> {
    spec_ranks_str(b, 7) + seq![' '] + seq![b.player.spec_char()] + seq![' '] + spec_castle_str(b)
        + seq![' ', '-', ' ', '0', ' ', '0']
}

/// Relies on `String::push`: appends exactly the one character.
#[verifier::external_body]
pub(crate) fn push_char(s: &mut String, c: char)
    ensures
        final(s)@ == old(s)@.push(c),
{
    s.push(c);
}

/// The digit character of a blank run's length, executable.
fn digit_char(n: usize) -> (r: char)
    requires
        1 <= n <= 8,
    ensures
        r == spec_digit_char(n as int),
{
    match n {
        1 => '1',
        2 => '2',
        3 => '3',
        4 => '4',
        5 => '5',
        6 => '6',
        7 => '7',
        _ => '8',
    }
}

impl Board {
    /// Prints the position's FEN text: the four fields, with the
    /// fixed tail `" - 0 0"` for the untracked en-passant square and
    /// clocks.
    #[verifier::rlimit(100)]
    pub fn to_fen(&self) -> (r: String)
        ensures
            r@ == spec_fen_str(*self),
    {
        let mut s = String::new();

        // Ranks, from Black's back rank down.
        let mut ri: usize = 0;
        while ri < 8
            invariant
                ri <= 8,
                spec_fen_str(*self) == s@ + spec_ranks_str(*self, 7 - ri as int) + seq![' ']
                    + seq![self.player.spec_char()] + seq![' '] + spec_castle_str(*self) + seq![
                    ' ',
                    '-',
                    ' ',
                    '0',
                    ' ',
                    '0',
                ],
            decreases 8 - ri,
        {
            let r = 7 - ri;
            let ghost tail_after_rank: Seq<char> = (if r > 0 {
                seq!['/']
            } else {
                Seq::empty()
            }) + spec_ranks_str(*self, r as int - 1) + seq![' '] + seq![self.player.spec_char()]
                + seq![' '] + spec_castle_str(*self) + seq![' ', '-', ' ', '0', ' ', '0'];
            proof {
                assert(spec_fen_str(*self) =~= s@ + spec_rank_str(*self, r as int, 0, 0)
                    + tail_after_rank);
            }
            let mut blanks: usize = 0;
            let mut c: usize = 0;
            while c < 8
                invariant
                    c <= 8,
                    blanks <= c,
                    r < 8,
                    spec_fen_str(*self) == s@ + spec_rank_str(
                        *self,
                        r as int,
                        c as int,
                        blanks as int,
                    ) + tail_after_rank,
                decreases 8 - c,
            {
                match self.tiles[r][c] {
                    Some(tile) => {
                        if blanks > 0 {
                            push_char(&mut s, digit_char(blanks));
                            blanks = 0;
                        }
                        push_char(&mut s, tile.as_char());
                        proof {
                            assert(spec_fen_str(*self) =~= s@ + spec_rank_str(
                                *self,
                                r as int,
                                c as int + 1,
                                0,
                            ) + tail_after_rank);
                        }
                    },
                    None => {
                        blanks = blanks + 1;
                    },
                }
                c = c + 1;
            }
            if blanks > 0 {
                push_char(&mut s, digit_char(blanks));
            }
            if r > 0 {
                push_char(&mut s, '/');
            }
            proof {
                assert(spec_fen_str(*self) =~= s@ + spec_ranks_str(*self, 7 - (ri + 1)) + seq![' ']
                    + seq![self.player.spec_char()] + seq![' '] + spec_castle_str(*self) + seq![
                    ' ',
                    '-',
                    ' ',
                    '0',
                    ' ',
                    '0',
                ]);
            }
            ri = ri + 1;
        }

        push_char(&mut s, ' ');
        push_char(&mut s, self.player.to_char());
        push_char(&mut s, ' ');

        // Castling rights, or `-` when none are left.
        let none_left = !self.can_castle_ks[0] && !self.can_castle_ks[1] && !self.can_castle_qs[0]
            && !self.can_castle_qs[1];
        if none_left {
            push_char(&mut s, '-');
        } else {
            if self.can_castle_ks[1] {
                push_char(&mut s, 'K');
            }
            if self.can_castle_qs[1] {
                push_char(&mut s, 'Q');
            }
            if self.can_castle_ks[0] {
                push_char(&mut s, 'k');
            }
            if self.can_castle_qs[0] {
                push_char(&mut s, 'q');
            }
        }

        push_char(&mut s, ' ');
        push_char(&mut s, '-');
        push_char(&mut s, ' ');
        push_char(&mut s, '0');
        push_char(&mut s, ' ');
        push_char(&mut s, '0');

        proof {
            assert(s@ =~= spec_fen_str(*self));
        }
        s
    }
}

/// The tile the standard starting position puts on `(row, col)`.
pub open spec fn spec_start_tile(row: int, col: int) -> Option<Tile> {
    if row == 0 || row == 7 {
        let color = if row == 0 {
            Color::White
        } else {
            Color::Black
        };
        let piece = if col == 0 || col == 7 {
            Piece::Rook
        } else if col == 1 || col == 6 {
            Piece::Knight
        } else if col == 2 || col == 5 {
            Piece::Bishop
        } else if col == 3 {
            Piece::Queen
        } else {
            Piece::King
        };
        Some(Tile { piece, color })
    } else if row == 1 {
        Some(Tile { piece: Piece::Pawn, color: Color::White })
    } else if row == 6 {
        Some(Tile { piece: Piece::Pawn, color: Color::Black })
    } else {
        None
    }
}

impl Board {
    /// The standard starting position, with the given side to move
    /// and all four castling rights held.
    pub fn new(player: Color) -> (r: Board)
        ensures
            r.wf(),
            r.player == player,
            forall|row: int, col: int|
                0 <= row < 8 && 0 <= col < 8 ==> r.tiles[row][col] == spec_start_tile(row, col),
            r.king_pos[0] == (Pos { row: 7, col: 4 }),
            r.king_pos[1] == (Pos { row: 0, col: 4 }),
            r.can_castle_ks[0] && r.can_castle_ks[1] && r.can_castle_qs[0] && r.can_castle_qs[1],
            r.stored_value is None,
    {
        let mut tiles: [[Option<Tile>; 8]; 8] = [[None;8];8];
        let mut col: usize = 0;
        while col < 8
            invariant
                col <= 8,
                forall|rr: int, cc: int|
                    0 <= rr < 8 && 0 <= cc < 8 ==> #[trigger] tiles[rr][cc] == (if cc < col {
                        spec_start_tile(rr, cc)
                    } else {
                        None
                    }),
            decreases 8 - col,
        {
            let piece: Piece = if col == 0 || col == 7 {
                Piece::Rook
            } else if col == 1 || col == 6 {
                Piece::Knight
            } else if col == 2 || col == 5 {
                Piece::Bishop
            } else if col == 3 {
                Piece::Queen
            } else {
                Piece::King
            };
            let ghost t0 = tiles;
            crate::board::set_tile(&mut tiles, 0, col, Some(Tile { piece, color: Color::White }));
            proof {
                crate::board::lemma_set_tile_at(
                    t0,
                    0,
                    col as int,
                    Some(Tile { piece, color: Color::White }),
                );
            }
            let ghost t1 = tiles;
            crate::board::set_tile(
                &mut tiles,
                1,
                col,
                Some(Tile { piece: Piece::Pawn, color: Color::White }),
            );
            proof {
                crate::board::lemma_set_tile_at(
                    t1,
                    1,
                    col as int,
                    Some(Tile { piece: Piece::Pawn, color: Color::White }),
                );
            }
            let ghost t2 = tiles;
            crate::board::set_tile(
                &mut tiles,
                6,
                col,
                Some(Tile { piece: Piece::Pawn, color: Color::Black }),
            );
            proof {
                crate::board::lemma_set_tile_at(
                    t2,
                    6,
                    col as int,
                    Some(Tile { piece: Piece::Pawn, color: Color::Black }),
                );
            }
            let ghost t3 = tiles;
            crate::board::set_tile(&mut tiles, 7, col, Some(Tile { piece, color: Color::Black }));
            proof {
                crate::board::lemma_set_tile_at(
                    t3,
                    7,
                    col as int,
                    Some(Tile { piece, color: Color::Black }),
                );
            }
            col = col + 1;
        }
        Board {
            tiles,
            player,
            king_pos: [Pos { row: 7, col: 4 }, Pos { row: 0, col: 4 }],
            can_castle_qs: [true, true],
            can_castle_ks: [true, true],
            stored_value: None,
        }
    }

    /// A plain-text rendering of the board for a terminal: the grid
    /// between horizontal rules, Black's back rank on top, then the
    /// side to move.
    pub fn as_ascii(&self) -> (r: String)
        requires
            self.wf(),
        ensures
            r@ == spec_ascii(*self),
    {
        let mut s = String::new();
        s.append("+---------------+\n");
        let mut ri: usize = 0;
        while ri < 8
            invariant
                self.wf(),
                ri <= 8,
                spec_ascii(*self) == s@ + spec_ascii_rows(*self, 7 - ri as int) + spec_ascii_tail(
                    *self,
                ),
            decreases 8 - ri,
        {
            let r = 7 - ri;
            let mut c: usize = 0;
            while c < 8
                invariant
                    self.wf(),
                    r < 8,
                    c <= 8,
                    spec_ascii(*self) == s@ + spec_ascii_row(*self, r as int, c as int)
                        + "+---------------+\n"@ + spec_ascii_rows(*self, r as int - 1)
                        + spec_ascii_tail(*self),
                decreases 8 - c,
            {
                push_char(&mut s, '|');
                match self.tiles[r][c] {
                    Some(t) => push_char(&mut s, t.as_char()),
                    None => push_char(&mut s, ' '),
                }
                c = c + 1;
            }
            s.append("|\n");
            s.append("+---------------+\n");
            proof {
                reveal_strlit("|\n");
                assert(spec_ascii(*self) =~= s@ + spec_ascii_rows(*self, 7 - (ri + 1))
                    + spec_ascii_tail(*self));
            }
            ri = ri + 1;
        }
        s.append("player: ");
        push_char(&mut s, self.player.to_char());
        push_char(&mut s, '\n');
        proof {
            assert(s@ =~= spec_ascii(*self));
        }
        s
    }
}

/// One rendered rank from column `c` on: each cell between bars, then
/// the closing bar and the line break.
pub open spec fn spec_ascii_row(b: Board, r: int, c: int) -> Seq<char>
    decreases 8 - c,
{
    if c < 0 || c >= 8 {
        seq!['|', '\n']
    } else {
        seq!['|'] + (match b.tiles[r][c] {
            Some(t) => seq![t.spec_char()],
            None => seq![' '],
        }) + spec_ascii_row(b, r, c + 1)
    }
}

/// The rendered ranks from `r` down, each followed by a rule.
pub open spec fn spec_ascii_rows(b: Board, r: int) -> Seq<char>
    decreases r + 1,
{
    if r < 0 {
        Seq::empty()
    } else {
        spec_ascii_row(b, r, 0) + "+---------------+\n"@ + spec_ascii_rows(b, r - 1)
    }
}

/// The closing line naming the side to move.
pub open spec fn spec_ascii_tail(b: Board) -> Seq<char> {
    "player: "@ + seq![b.player.spec_char(), '\n']
}

/// The whole rendering.
pub open spec fn spec_ascii(b: Board) -> Seq<char> {
    "+---------------+\n"@ + spec_ascii_rows(b, 7) + spec_ascii_tail(b)
}

/// Everything `from_fen` promises of the board it returns.
pub open spec fn spec_parsed_board(s: Seq<char>, b: Board) -> bool {
    &&& b.wf()
    &&& forall|row: int, col: int|
        0 <= row < 8 && 0 <= col < 8 ==> b.tiles[row][col] == spec_fen_tile(s, row, col)
    &&& Some(b.player) == spec_fen_player(s)
    &&& b.king_pos[0] == spec_fen_ranks(s).unwrap().1
    &&& b.king_pos[1] == spec_fen_ranks(s).unwrap().2
    &&& b.can_castle_ks[0] == spec_fen_castle(s, 'k')
    &&& b.can_castle_ks[1] == spec_fen_castle(s, 'K')
    &&& b.can_castle_qs[0] == spec_fen_castle(s, 'q')
    &&& b.can_castle_qs[1] == spec_fen_castle(s, 'Q')
    &&& b.stored_value is None
}

/// The board a FEN string describes; meaningful when the string
/// parses.
pub open spec fn spec_board_of_fen(s: Seq<char>) -> Board {
    choose|b: Board| spec_parsed_board(s, b)
}

/// Two boards a FEN string describes are the same board.
pub proof fn lemma_parsed_board_unique(s: Seq<char>, b1: Board, b2: Board)
    requires
        spec_parsed_board(s, b1),
        spec_parsed_board(s, b2),
    ensures
        b1 == b2,
{
    broadcast use vstd::array::group_array_axioms;

    assert forall|row: int| 0 <= row < 8 implies b1.tiles[row] == b2.tiles[row] by {
        assert forall|col: int| 0 <= col < 8 implies b1.tiles[row][col] == b2.tiles[row][col] by {
            assert(b1.tiles[row][col] == spec_fen_tile(s, row, col));
            assert(b2.tiles[row][col] == spec_fen_tile(s, row, col));
        }
        assert(b1.tiles[row] =~= b2.tiles[row]);
    }
    assert(b1.tiles =~= b2.tiles);
    assert(b1.king_pos =~= b2.king_pos);
    assert(b1.can_castle_ks =~= b2.can_castle_ks);
    assert(b1.can_castle_qs =~= b2.can_castle_qs);
}

proof fn lemma_skip_ws_unique(s: Seq<char>, i: int, j: int)
    requires
        0 <= i <= j <= s.len(),
        forall|k: int| i <= k < j ==> spec_is_ws(#[trigger] s[k]),
        j == s.len() || !spec_is_ws(s[j]),
    ensures
        spec_skip_ws(s, i) == j,
    decreases j - i,
{
    if i < j {
        lemma_skip_ws_unique(s, i + 1, j);
    }
}

proof fn lemma_tok_end_unique(s: Seq<char>, i: int, j: int)
    requires
        0 <= i <= j <= s.len(),
        forall|k: int| i <= k < j ==> !spec_is_ws(#[trigger] s[k]),
        j == s.len() || spec_is_ws(s[j]),
    ensures
        spec_tok_end(s, i) == j,
    decreases j - i,
{
    if i < j {
        lemma_tok_end_unique(s, i + 1, j);
    }
}

proof fn lemma_has_char_concat(s1: Seq<char>, s2: Seq<char>, c: char)
    ensures
        spec_has_char(s1 + s2, c) == (spec_has_char(s1, c) || spec_has_char(s2, c)),
{
    if spec_has_char(s1, c) {
        let i = choose|i: int| 0 <= i < s1.len() && s1[i] == c;
        assert((s1 + s2)[i] == c);
    }
    if spec_has_char(s2, c) {
        let i = choose|i: int| 0 <= i < s2.len() && s2[i] == c;
        assert((s1 + s2)[s1.len() + i] == c);
    }
    if spec_has_char(s1 + s2, c) {
        let i = choose|i: int| 0 <= i < (s1 + s2).len() && (s1 + s2)[i] == c;
        if i < s1.len() {
            assert(s1[i] == c);
        } else {
            assert(s2[i - s1.len()] == c);
        }
    }
}

/// Which characters make up a printed rank: tile letters and the
/// digits of blank runs. None of them is whitespace.
pub open spec fn spec_is_rank_char(c: char) -> bool {
    ||| spec_is_digit(c)
    ||| spec_tile_from_char(c) is Some
}

/// Every character of the sequence is a rank character or the rank
/// separator.
pub open spec fn spec_all_placement_chars(s: Seq<char>) -> bool {
    forall|k: int| 0 <= k < s.len() ==> spec_is_rank_char(#[trigger] s[k]) || s[k] == '/'
}

proof fn lemma_placement_chars_concat(s1: Seq<char>, s2: Seq<char>)
    requires
        spec_all_placement_chars(s1),
        spec_all_placement_chars(s2),
    ensures
        spec_all_placement_chars(s1 + s2),
{
    assert forall|k: int| 0 <= k < (s1 + s2).len() implies spec_is_rank_char((s1 + s2)[k]) || (s1
        + s2)[k] == '/' by {
        if k < s1.len() {
            assert((s1 + s2)[k] == s1[k]);
        } else {
            assert((s1 + s2)[k] == s2[k - s1.len()]);
        }
    }
}

proof fn lemma_rank_str_chars(b: Board, r: int, c: int, blanks: int)
    ensures
        spec_all_placement_chars(spec_rank_str(b, r, c, blanks)),
    decreases 8 - c,
{
    let pre: Seq<char> = if blanks > 0 {
        seq![spec_digit_char(blanks)]
    } else {
        Seq::empty()
    };
    assert(spec_all_placement_chars(pre));
    if c < 0 || c >= 8 {
    } else {
        match b.tiles[r][c] {
            Some(t) => {
                lemma_rank_str_chars(b, r, c + 1, 0);
                assert(spec_tile_from_char(t.spec_char()) is Some);
                assert(spec_all_placement_chars(seq![t.spec_char()]));
                lemma_placement_chars_concat(pre, seq![t.spec_char()]);
                lemma_placement_chars_concat(pre + seq![t.spec_char()], spec_rank_str(b, r, c + 1, 0));
            },
            None => {
                lemma_rank_str_chars(b, r, c + 1, blanks + 1);
            },
        }
    }
}

proof fn lemma_ranks_str_chars(b: Board, r: int)
    requires
        r <= 7,
    ensures
        spec_all_placement_chars(spec_ranks_str(b, r)),
        r >= 0 ==> spec_ranks_str(b, r).len() >= 1,
    decreases r + 1,
{
    if r < 0 {
    } else {
        lemma_rank_str_chars(b, r, 0, 0);
        lemma_ranks_str_chars(b, r - 1);
        lemma_rank_str_len(b, r, 0, 0);
        let first = spec_rank_str(b, r, 0, 0);
        let sep: Seq<char> = if r > 0 {
            seq!['/']
        } else {
            Seq::empty()
        };
        assert(spec_all_placement_chars(sep));
        lemma_placement_chars_concat(first, sep);
        lemma_placement_chars_concat(first + sep, spec_ranks_str(b, r - 1));
    }
}

proof fn lemma_rank_str_len(b: Board, r: int, c: int, blanks: int)
    requires
        0 <= c <= 8,
        0 <= blanks,
        c == 8 ==> blanks > 0,
    ensures
        spec_rank_str(b, r, c, blanks).len() >= 1,
    decreases 8 - c,
{
    if c >= 8 {
    } else {
        match b.tiles[r][c] {
            Some(t) => {},
            None => {
                lemma_rank_str_len(b, r, c + 1, blanks + 1);
            },
        }
    }
}

/// The letters of the castling field, none of them whitespace, and
/// exactly the held rights.
proof fn lemma_castle_str_facts(b: Board)
    ensures
        spec_castle_str(b).len() >= 1,
        forall|k: int| 0 <= k < spec_castle_str(b).len() ==> !spec_is_ws(#[trigger] spec_castle_str(b)[k]),
        spec_has_char(spec_castle_str(b), 'K') == b.can_castle_ks[1],
        spec_has_char(spec_castle_str(b), 'Q') == b.can_castle_qs[1],
        spec_has_char(spec_castle_str(b), 'k') == b.can_castle_ks[0],
        spec_has_char(spec_castle_str(b), 'q') == b.can_castle_qs[0],
{
    let big_k: Seq<char> = if b.can_castle_ks[1] {
        seq!['K']
    } else {
        Seq::empty()
    };
    let big_q: Seq<char> = if b.can_castle_qs[1] {
        seq!['Q']
    } else {
        Seq::empty()
    };
    let small_k: Seq<char> = if b.can_castle_ks[0] {
        seq!['k']
    } else {
        Seq::empty()
    };
    let small_q: Seq<char> = if b.can_castle_qs[0] {
        seq!['q']
    } else {
        Seq::empty()
    };
    if !b.can_castle_ks[0] && !b.can_castle_ks[1] && !b.can_castle_qs[0] && !b.can_castle_qs[1] {
        assert(!spec_has_char(seq!['-'], 'K'));
        assert(!spec_has_char(seq!['-'], 'Q'));
        assert(!spec_has_char(seq!['-'], 'k'));
        assert(!spec_has_char(seq!['-'], 'q'));
    } else {
        lemma_has_char_concat(big_k, big_q, 'K');
        lemma_has_char_concat(big_k + big_q, small_k, 'K');
        lemma_has_char_concat(big_k + big_q + small_k, small_q, 'K');
        lemma_has_char_concat(big_k, big_q, 'Q');
        lemma_has_char_concat(big_k + big_q, small_k, 'Q');
        lemma_has_char_concat(big_k + big_q + small_k, small_q, 'Q');
        lemma_has_char_concat(big_k, big_q, 'k');
        lemma_has_char_concat(big_k + big_q, small_k, 'k');
        lemma_has_char_concat(big_k + big_q + small_k, small_q, 'k');
        lemma_has_char_concat(big_k, big_q, 'q');
        lemma_has_char_concat(big_k + big_q, small_k, 'q');
        lemma_has_char_concat(big_k + big_q + small_k, small_q, 'q');
        if b.can_castle_ks[1] {
            assert(spec_has_char(big_k, 'K')) by {
                assert(big_k[0] == 'K');
            }
        }
        if b.can_castle_qs[1] {
            assert(spec_has_char(big_q, 'Q')) by {
                assert(big_q[0] == 'Q');
            }
        }
        if b.can_castle_ks[0] {
            assert(spec_has_char(small_k, 'k')) by {
                assert(small_k[0] == 'k');
            }
        }
        if b.can_castle_qs[0] {
            assert(spec_has_char(small_q, 'q')) by {
                assert(small_q[0] == 'q');
            }
        }
    }
}

/// Where the three fields of a printed FEN lie: the ranks from the
/// start, the side-to-move letter after one space, the castling field
/// after another, each recovered exactly.
proof fn lemma_fen_fields(b: Board)
    ensures
        ({
            let s = spec_fen_str(b);
            let n1 = spec_ranks_str(b, 7).len() as int;
            let nc = spec_castle_str(b).len() as int;
            &&& spec_field1(s) == (0int, n1)
            &&& s.subrange(0, n1) == spec_ranks_str(b, 7)
            &&& n1 >= 1
            &&& spec_field2(s) == (n1 + 1, n1 + 2)
            &&& spec_fen_player(s) == Some(b.player)
            &&& spec_field3(s) == (n1 + 3, n1 + 3 + nc)
            &&& s.subrange(n1 + 3, n1 + 3 + nc) == spec_castle_str(b)
            &&& spec_fen_castle(s, 'K') == b.can_castle_ks[1]
            &&& spec_fen_castle(s, 'Q') == b.can_castle_qs[1]
            &&& spec_fen_castle(s, 'k') == b.can_castle_ks[0]
            &&& spec_fen_castle(s, 'q') == b.can_castle_qs[0]
            &&& spec_fen_ranks(s) == spec_parse_ranks(spec_ranks_str(b, 7))
        }),
{
    let s = spec_fen_str(b);
    let rr = spec_ranks_str(b, 7);
    let cc = spec_castle_str(b);
    let n1 = rr.len() as int;
    let nc = cc.len() as int;
    let pc = b.player.spec_char();
    lemma_ranks_str_chars(b, 7);
    lemma_castle_str_facts(b);
    assert(s.len() == n1 + 3 + nc + 6);
    assert forall|k: int| 0 <= k < n1 implies #[trigger] s[k] == rr[k] by {}
    assert(s[n1] == ' ');
    assert(s[n1 + 1] == pc);
    assert(s[n1 + 2] == ' ');
    assert forall|k: int| n1 + 3 <= k < n1 + 3 + nc implies #[trigger] s[k] == cc[k - n1 - 3] by {}
    assert(s[n1 + 3 + nc] == ' ');

    // Field one: the ranks.
    assert forall|k: int| 0 <= k < n1 implies !spec_is_ws(#[trigger] s[k]) by {
        assert(s[k] == rr[k]);
        assert(spec_is_rank_char(rr[k]) || rr[k] == '/');
    }
    lemma_skip_ws_unique(s, 0, 0);
    lemma_tok_end_unique(s, 0, n1);
    assert(s.subrange(0, n1) =~= rr);

    // Field two: the side to move.
    lemma_skip_ws_unique(s, n1, n1 + 1);
    lemma_tok_end_unique(s, n1 + 1, n1 + 2);
    assert(s.subrange(n1 + 1, n1 + 2) =~= seq![pc]);
    assert(spec_parse_player(seq![pc]) == Some(b.player));

    // Field three: the castling rights.
    lemma_skip_ws_unique(s, n1 + 2, n1 + 3);
    assert forall|k: int| n1 + 3 <= k < n1 + 3 + nc implies !spec_is_ws(#[trigger] s[k]) by {
        assert(s[k] == cc[k - n1 - 3]);
    }
    lemma_tok_end_unique(s, n1 + 3, n1 + 3 + nc);
    assert(s.subrange(n1 + 3, n1 + 3 + nc) =~= cc);
}

/// The squares the placement parser has walked when it stands on
/// rank `r` (counted from White's side), column `c`: the ranks above
/// and the earlier columns of this rank.
pub open spec fn spec_in_region(p_row: int, p_col: int, r: int, c: int) -> bool {
    0 <= p_row < 8 && 0 <= p_col < 8 && (p_row > r || (p_row == r && p_col < c))
}

/// The tiles of the walked squares, as the parser's map.
pub open spec fn spec_acc_upto(b: Board, r: int, c: int) -> Map<(int, int), Tile> {
    Map::new(
        |k: (int, int)| spec_in_region(k.0, k.1, r, c) && b.tiles[k.0][k.1] is Some,
        |k: (int, int)| b.tiles[k.0][k.1].unwrap(),
    )
}

/// The king of side `s` as the parser has recorded it: its square
/// once walked, nothing before.
pub open spec fn spec_k_upto(b: Board, s: int, r: int, c: int) -> Option<Pos> {
    let kp = b.king_pos[s];
    if spec_in_region(kp.row as int, kp.col as int, r, c) {
        Some(kp)
    } else {
        None
    }
}

/// What follows a printed rank: the separator and the ranks below.
pub open spec fn spec_rank_rest(b: Board, r: int) -> Seq<char> {
    if r > 0 {
        seq!['/'] + spec_ranks_str(b, r - 1)
    } else {
        Seq::empty()
    }
}

/// The suffix of `f` from `j` on, when the suffix from `i` splits as
/// `head + tail` with `head` ending at `j`.
proof fn lemma_suffix_shift(f: Seq<char>, i: int, j: int, head: Seq<char>, tail: Seq<char>)
    requires
        0 <= i <= j <= f.len(),
        f.subrange(i, f.len() as int) == head + tail,
        head.len() == j - i,
    ensures
        f.subrange(j, f.len() as int) == tail,
{
    assert((head + tail).len() == head.len() + tail.len());
    assert(f.subrange(i, f.len() as int).len() == f.len() - i);
    assert forall|k: int| 0 <= k < tail.len() implies f.subrange(j, f.len() as int)[k]
        == tail[k] by {
        assert(f.subrange(j, f.len() as int)[k] == f[j + k]);
        assert(f.subrange(i, f.len() as int)[j - i + k] == f[i + (j - i + k)]);
        assert((head + tail)[j - i + k] == tail[k]);
    }
    assert(f.subrange(j, f.len() as int) =~= tail);
}

proof fn lemma_suffix_len(f: Seq<char>, i: int)
    requires
        0 <= i <= f.len(),
    ensures
        f.subrange(i, f.len() as int).len() == f.len() - i,
{
}

/// Replaying the printer's output through the placement parser: from
/// a consistent mid-rank state, parsing the rest of the printed
/// placement yields the whole board and both kings.
#[verifier::rlimit(100)]
proof fn lemma_parse_rank(b: Board, f: Seq<char>, i: int, r: int, c: int, blanks: int)
    requires
        b.wf(),
        0 <= r <= 7,
        0 <= c <= 8,
        0 <= blanks <= c,
        forall|j: int| c - blanks <= j < c ==> b.tiles[r][j] is None,
        0 <= i <= f.len(),
        f.subrange(i, f.len() as int) == spec_rank_str(b, r, c, blanks) + spec_rank_rest(b, r),
    ensures
        spec_pr(
            f,
            i,
            7 - r,
            c - blanks,
            spec_acc_upto(b, r, c - blanks),
            spec_k_upto(b, 0, r, c - blanks),
            spec_k_upto(b, 1, r, c - blanks),
        ) == Some((spec_acc_upto(b, 0, 8), b.king_pos[0], b.king_pos[1])),
    decreases r, 8 - c,
{
    let acc = spec_acc_upto(b, r, c - blanks);
    let kb = spec_k_upto(b, 0, r, c - blanks);
    let kw = spec_k_upto(b, 1, r, c - blanks);
    broadcast use vstd::map::group_map_axioms;

    let s_here = spec_rank_str(b, r, c, blanks);
    let rest = spec_rank_rest(b, r);
    let suffix = f.subrange(i, f.len() as int);
    let pre: Seq<char> = if blanks > 0 {
        seq![spec_digit_char(blanks)]
    } else {
        Seq::empty()
    };

    // The black and white kings stand where the cache says, on
    // occupied squares.
    let pb = b.king_pos[0];
    let pw = b.king_pos[1];
    assert(b.spec_at(pb) == Some(Tile { piece: Piece::King, color: Color::Black }));
    assert(b.spec_at(pw) == Some(Tile { piece: Piece::King, color: Color::White }));

    if c < 8 {
        match b.tiles[r][c] {
            None => {
                assert(s_here == spec_rank_str(b, r, c + 1, blanks + 1));
                lemma_parse_rank(b, f, i, r, c + 1, blanks + 1);
                assert(spec_acc_upto(b, r, c + 1 - (blanks + 1)) == acc);
            },
            Some(t) => {
                // Consume the pending blank digit, if any.
                let i1 = i + pre.len() as int;
                assert(s_here == pre + seq![t.spec_char()] + spec_rank_str(b, r, c + 1, 0));
                lemma_suffix_len(f, i);
                assert((pre + seq![t.spec_char()] + spec_rank_str(b, r, c + 1, 0)).len() == pre.len()
                    + 1 + spec_rank_str(b, r, c + 1, 0).len());
                assert((s_here + rest).len() == s_here.len() + rest.len());
                if blanks > 0 {
                    assert(f.subrange(i, f.len() as int)[0] == f[i]);
                    assert(suffix[0] == (s_here + rest)[0]);
                    assert((s_here + rest)[0] == s_here[0]);
                    assert(s_here[0] == pre[0]);
                    assert(f[i] == spec_digit_char(blanks));
                    assert(spec_is_digit(spec_digit_char(blanks)));
                    assert(spec_digit_char(blanks) as int - '0' as int == blanks);
                    assert(spec_pr(f, i, 7 - r, c - blanks, acc, kb, kw) == spec_pr(
                        f,
                        i + 1,
                        7 - r,
                        c,
                        acc,
                        kb,
                        kw,
                    ));
                }
                // The blank strip holds no tiles, so the maps and the
                // recorded kings are unchanged at column `c`.
                assert(spec_acc_upto(b, r, c) =~= acc);
                assert(spec_k_upto(b, 0, r, c) == kb);
                assert(spec_k_upto(b, 1, r, c) == kw);
                // Consume the tile letter.
                assert(f.subrange(i, f.len() as int)[i1 - i] == f[i1]);
                assert(suffix[i1 - i] == (s_here + rest)[i1 - i]);
                assert((s_here + rest)[i1 - i] == s_here[i1 - i]);
                assert(s_here[i1 - i] == t.spec_char());
                assert(f[i1] == t.spec_char());
                assert(!spec_is_digit(t.spec_char()));
                assert(t.spec_char() != '/');
                assert(spec_tile_from_char(t.spec_char()) == Some(t));
                let p = Pos { row: (7 - (7 - r)) as i8, col: c as i8 };
                assert(p == Pos { row: r as i8, col: c as i8 });
                let acc2 = spec_acc_upto(b, r, c).insert((r, c), t);
                assert(acc2 =~= spec_acc_upto(b, r, c + 1));
                if t.piece == Piece::King && t.color == Color::Black {
                    assert(b.spec_at(p) == Some(t));
                    assert(p == pb);
                    assert(kb is None);
                    assert(spec_k_upto(b, 0, r, c + 1) == Some(p));
                    assert(spec_k_upto(b, 1, r, c + 1) == kw);
                } else if t.piece == Piece::King && t.color == Color::White {
                    assert(b.spec_at(p) == Some(t));
                    assert(p == pw);
                    assert(kw is None);
                    assert(spec_k_upto(b, 1, r, c + 1) == Some(p));
                    assert(spec_k_upto(b, 0, r, c + 1) == kb);
                } else {
                    assert(p != pb && p != pw);
                    assert(spec_k_upto(b, 0, r, c + 1) == kb);
                    assert(spec_k_upto(b, 1, r, c + 1) == kw);
                }
                assert(f.subrange(i, f.len() as int) == (pre + seq![t.spec_char()]) + (spec_rank_str(
                    b,
                    r,
                    c + 1,
                    0,
                ) + spec_rank_rest(b, r))) by {
                    assert(f.subrange(i, f.len() as int) =~= (pre + seq![t.spec_char()]) + (
                    spec_rank_str(b, r, c + 1, 0) + spec_rank_rest(b, r)));
                }
                lemma_suffix_shift(
                    f,
                    i,
                    i1 + 1,
                    pre + seq![t.spec_char()],
                    spec_rank_str(b, r, c + 1, 0) + spec_rank_rest(b, r),
                );
                lemma_parse_rank(b, f, i1 + 1, r, c + 1, 0);
            },
        }
    } else {
        // End of the rank: flush the pending digit, then the
        // separator or the end of the field.
        let i1 = i + pre.len() as int;
        assert(s_here == pre);
        lemma_suffix_len(f, i);
        assert((s_here + rest).len() == s_here.len() + rest.len());
        if blanks > 0 {
            assert(f.subrange(i, f.len() as int)[0] == f[i]);
            assert(suffix[0] == (s_here + rest)[0]);
            assert((s_here + rest)[0] == s_here[0]);
            assert(f[i] == spec_digit_char(blanks));
            assert(spec_is_digit(spec_digit_char(blanks)));
            assert(spec_digit_char(blanks) as int - '0' as int == blanks);
            assert(spec_pr(f, i, 7 - r, c - blanks, acc, kb, kw) == spec_pr(
                f,
                i + 1,
                7 - r,
                8,
                acc,
                kb,
                kw,
            ));
        }
        assert(spec_acc_upto(b, r, 8) =~= acc);
        assert(spec_k_upto(b, 0, r, 8) == kb);
        assert(spec_k_upto(b, 1, r, 8) == kw);
        if r > 0 {
            assert(f.subrange(i, f.len() as int)[i1 - i] == f[i1]);
            assert(suffix[i1 - i] == (s_here + rest)[i1 - i]);
            assert((s_here + rest)[i1 - i] == rest[0]);
            assert(rest[0] == '/');
            assert(f[i1] == '/');
            assert(!spec_is_digit('/'));
            assert(spec_pr(f, i1, 7 - r, 8, acc, kb, kw) == spec_pr(
                f,
                i1 + 1,
                7 - r + 1,
                0,
                acc,
                kb,
                kw,
            ));
            assert(spec_acc_upto(b, r - 1, 0) =~= spec_acc_upto(b, r, 8));
            assert(spec_k_upto(b, 0, r - 1, 0) == spec_k_upto(b, 0, r, 8));
            assert(spec_k_upto(b, 1, r - 1, 0) == spec_k_upto(b, 1, r, 8));
            assert(f.subrange(i, f.len() as int) == (pre + seq!['/']) + spec_ranks_str(b, r - 1))
                by {
                assert(f.subrange(i, f.len() as int) =~= (pre + seq!['/']) + spec_ranks_str(
                    b,
                    r - 1,
                ));
            }
            lemma_suffix_shift(f, i, i1 + 1, pre + seq!['/'], spec_ranks_str(b, r - 1));
            assert(spec_ranks_str(b, r - 1) == spec_rank_str(b, r - 1, 0, 0) + spec_rank_rest(
                b,
                r - 1,
            )) by {
                if r - 1 == 0 {
                    assert(spec_ranks_str(b, -1) =~= Seq::<char>::empty());
                    assert(spec_rank_rest(b, 0) =~= Seq::<char>::empty());
                }
                assert(spec_ranks_str(b, r - 1) =~= spec_rank_str(b, r - 1, 0, 0)
                    + spec_rank_rest(b, r - 1));
            }
            lemma_parse_rank(b, f, i1 + 1, r - 1, 0, 0);
        } else {
            assert(f.subrange(i1, f.len() as int) =~= Seq::<char>::empty());
            assert(i1 == f.len());
            assert(spec_in_region(pb.row as int, pb.col as int, 0, 8));
            assert(spec_in_region(pw.row as int, pw.col as int, 0, 8));
            assert(spec_pr(f, i1, 7, 8, acc, kb, kw) == Some((acc, pb, pw)));
            assert(acc =~= spec_acc_upto(b, 0, 8));
        }
    }
}

/// Printing a well-formed board and parsing the text back yields the
/// board, with an empty evaluation slot: the byte-exact round trip of
/// the FEN encoding.
pub proof fn lemma_fen_round_trip(b: Board)
    requires
        b.wf(),
    ensures
        spec_fen_ok(spec_fen_str(b)),
        spec_board_of_fen(spec_fen_str(b)) == (Board { stored_value: None, ..b }),
{
    broadcast use vstd::map::group_map_axioms;

    let s = spec_fen_str(b);
    let rr = spec_ranks_str(b, 7);
    lemma_fen_fields(b);
    assert(rr.subrange(0, rr.len() as int) =~= rr);
    assert(rr.subrange(0, rr.len() as int) == spec_rank_str(b, 7, 0, 0) + spec_rank_rest(b, 7))
        by {
        assert(rr =~= spec_rank_str(b, 7, 0, 0) + spec_rank_rest(b, 7));
    }
    lemma_parse_rank(b, rr, 0, 7, 0, 0);
    assert(spec_acc_upto(b, 7, 0) =~= Map::<(int, int), Tile>::empty());
    assert(spec_k_upto(b, 0, 7, 0) is None);
    assert(spec_k_upto(b, 1, 7, 0) is None);
    assert(spec_parse_ranks(rr) == Some((spec_acc_upto(b, 0, 8), b.king_pos[0], b.king_pos[1])));
    assert(spec_fen_ok(s));
    let b2 = Board { stored_value: None, ..b };
    assert forall|p: Pos| p.valid() implies #[trigger] b2.spec_at(p) == b.spec_at(p) by {}
    assert(b2.wf());
    assert forall|row: int, col: int| 0 <= row < 8 && 0 <= col < 8 implies b2.tiles[row][col]
        == spec_fen_tile(s, row, col) by {
        assert(spec_in_region(row, col, 0, 8));
        assert(spec_fen_ranks(s).unwrap().0 == spec_acc_upto(b, 0, 8));
        if b.tiles[row][col] is Some {
            assert(spec_acc_upto(b, 0, 8).contains_key((row, col)));
            assert(spec_acc_upto(b, 0, 8)[(row, col)] == b.tiles[row][col].unwrap());
        } else {
            assert(!spec_acc_upto(b, 0, 8).contains_key((row, col)));
        }
    }
    assert(Some(b2.player) == spec_fen_player(s));
    assert(b2.king_pos[0] == spec_fen_ranks(s).unwrap().1);
    assert(b2.king_pos[1] == spec_fen_ranks(s).unwrap().2);
    assert(spec_parsed_board(s, b2));
    lemma_parsed_board_unique(s, b2, spec_board_of_fen(s));
}

} // verus!
