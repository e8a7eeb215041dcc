use vstd::prelude::*;

use crate::chess_game::{ChessGame, GameModel, GamePhase, Players};
use crate::gamestate::GameState;
use crate::piece::{place_value, tables_ok, tables_view, Piece, PieceTypes, ScoreTables};
use crate::position::{on_board, Position};
use crate::scores::{
    BISHOP_SCORES, KING_SCORES_MIDDLE, KNIGHT_SCORES, PAWN_SCORES, QUEEN_SCORES, ROOK_SCORES,
};

verus! {

/// Why a FEN string was refused.
#[derive(PartialEq, Eq, Structural, Clone, Copy, Debug)]
pub enum FenError {
    MissingBoard,
    TooManyRows,
    TooManyColumns,
    InvalidPiece,
    UnknownCharacter,
    MissingPlayer,
    InvalidPlayer,
    MissingCastlingRights,
    InvalidCastlingRight,
    MissingEnPassant,
    InvalidEnPassantSquare,
    WhiteKingNotFound,
    BlackKingNotFound,
}

impl FenError {
    /// The text of the message that describes the error.
    pub open spec fn spec_message(self) -> Seq<char> {
        match self {
            FenError::MissingBoard => "Missing board"@,
            FenError::TooManyRows => "Too many rows"@,
            FenError::TooManyColumns => "Too many columns"@,
            FenError::InvalidPiece => "Invalid piece"@,
            FenError::UnknownCharacter => "Unknown character met"@,
            FenError::MissingPlayer => "Missing player"@,
            FenError::InvalidPlayer => "Invalid player"@,
            FenError::MissingCastlingRights => "Missing castling rights"@,
            FenError::InvalidCastlingRight => "Invalid castling right"@,
            FenError::MissingEnPassant => "Missing en passant"@,
            FenError::InvalidEnPassantSquare => "Invalid en passant square"@,
            FenError::WhiteKingNotFound => "White king not found"@,
            FenError::BlackKingNotFound => "Black king not found"@,
        }
    }

    /// The message that describes the error.
    pub fn message(&self) -> (r: &'static str)
        ensures
            r@ == self.spec_message(),
    {
        match self {
            FenError::MissingBoard => {
                proof {
                    reveal_strlit("Missing board");
                }
                "Missing board"
            },
            FenError::TooManyRows => {
                proof {
                    reveal_strlit("Too many rows");
                }
                "Too many rows"
            },
            FenError::TooManyColumns => {
                proof {
                    reveal_strlit("Too many columns");
                }
                "Too many columns"
            },
            FenError::InvalidPiece => {
                proof {
                    reveal_strlit("Invalid piece");
                }
                "Invalid piece"
            },
            FenError::UnknownCharacter => {
                proof {
                    reveal_strlit("Unknown character met");
                }
                "Unknown character met"
            },
            FenError::MissingPlayer => {
                proof {
                    reveal_strlit("Missing player");
                }
                "Missing player"
            },
            FenError::InvalidPlayer => {
                proof {
                    reveal_strlit("Invalid player");
                }
                "Invalid player"
            },
            FenError::MissingCastlingRights => {
                proof {
                    reveal_strlit("Missing castling rights");
                }
                "Missing castling rights"
            },
            FenError::InvalidCastlingRight => {
                proof {
                    reveal_strlit("Invalid castling right");
                }
                "Invalid castling right"
            },
            FenError::MissingEnPassant => {
                proof {
                    reveal_strlit("Missing en passant");
                }
                "Missing en passant"
            },
            FenError::InvalidEnPassantSquare => {
                proof {
                    reveal_strlit("Invalid en passant square");
                }
                "Invalid en passant square"
            },
            FenError::WhiteKingNotFound => {
                proof {
                    reveal_strlit("White king not found");
                }
                "White king not found"
            },
            FenError::BlackKingNotFound => {
                proof {
                    reveal_strlit("Black king not found");
                }
                "Black king not found"
            },
        }
    }
}

/// The score tables a game starts with.
pub open spec fn initial_tables() -> ScoreTables {
    [QUEEN_SCORES, ROOK_SCORES, BISHOP_SCORES, KNIGHT_SCORES, PAWN_SCORES, KING_SCORES_MIDDLE]
}

// ---------------------------------------------------------------------------------------
// Terms

/// The ASCII whitespace that separates the fields of a FEN string.
pub open spec fn is_space(c: char) -> bool {
    c == ' ' || c == '\t' || c == '\n' || c == '\x0C' || c == '\r'
}

/// The first index at or after `i` that holds no whitespace (the length if there is none).
pub open spec fn skip_space(cs: Seq<char>, i: int) -> int
    decreases cs.len() - i,
{
    if i < 0 || i >= cs.len() || !is_space(cs[i]) {
        i
    } else {
        skip_space(cs, i + 1)
    }
}

/// The first index at or after `i` that holds whitespace (the length if there is none).
pub open spec fn word_end(cs: Seq<char>, i: int) -> int
    decreases cs.len() - i,
{
    if i < 0 || i >= cs.len() || is_space(cs[i]) {
        i
    } else {
        word_end(cs, i + 1)
    }
}

/// Where the `k`-th field (from 0) starts and ends; it exists when it starts before the end.
pub open spec fn field(cs: Seq<char>, k: nat) -> (int, int)
    decreases k,
{
    let from = if k == 0 {
        0
    } else {
        field(cs, (k - 1) as nat).1
    };
    let s = skip_space(cs, from);
    (s, word_end(cs, s))
}

pub open spec fn field_chars(cs: Seq<char>, k: nat) -> Seq<char> {
    cs.subrange(field(cs, k).0, field(cs, k).1)
}

pub open spec fn has_field(cs: Seq<char>, k: nat) -> bool {
    field(cs, k).0 < cs.len()
}

// ---------------------------------------------------------------------------------------
// The board field

/// How reading a field goes on after a character: it continues with a new value, stops
/// with an error, or would panic.
pub enum Step<T> {
    Continue(T),
    Fail(FenError),
    Panic,
}

/// What has been read of the board so far.
pub struct BoardRead {
    pub row: int,
    pub col: int,
    pub board: Seq<Option<Piece>>,
    pub white: Option<Position>,
    pub black: Option<Position>,
}

pub open spec fn is_letter(c: char) -> bool {
    ('a' <= c && c <= 'z') || ('A' <= c && c <= 'Z')
}

pub open spec fn is_digit(c: char) -> bool {
    '0' <= c && c <= '9'
}

/// Reading one character of the board field: `/` starts the next row down, a letter puts a
/// piece on the next square, a digit skips that many squares.
pub open spec fn board_step(b: BoardRead, c: char) -> Step<BoardRead> {
    if c == '/' {
        if b.row == 0 {
            Step::Fail(FenError::TooManyRows)
        } else {
            Step::Continue(BoardRead { row: b.row - 1, col: 0, ..b })
        }
    } else if is_letter(c) {
        if b.col == 8 {
            Step::Fail(FenError::TooManyColumns)
        } else {
            match Piece::spec_from_char_ascii(c) {
                None => Step::Fail(FenError::InvalidPiece),
                Some(p) => if !on_board(b.row, b.col) {
                    Step::Panic
                } else {
                    let pos = Position::at(b.row, b.col);
                    Step::Continue(
                        BoardRead {
                            col: b.col + 1,
                            board: b.board.update(pos.idx(), Some(p)),
                            white: if p.piece_type == PieceTypes::King && p.owner
                                == Players::White {
                                Some(pos)
                            } else {
                                b.white
                            },
                            black: if p.piece_type == PieceTypes::King && p.owner
                                == Players::Black {
                                Some(pos)
                            } else {
                                b.black
                            },
                            ..b
                        },
                    )
                },
            }
        }
    } else if is_digit(c) {
        let col = b.col + (c as int - '0' as int);
        if col > 127 {
            Step::Panic
        } else {
            Step::Continue(BoardRead { col, ..b })
        }
    } else {
        Step::Fail(FenError::UnknownCharacter)
    }
}

/// `p` comes before the square `(row, col)` in reading order (rows from the eighth down,
/// files from a to h).
pub open spec fn read_before(p: Position, row: int, col: int) -> bool {
    p.spec_row() > row || (p.spec_row() == row && p.spec_col() < col)
}

/// What reading the board keeps true: each king recorded so far stands on its square, which
/// the reading has passed.
pub open spec fn kings_read(b: BoardRead) -> bool {
    &&& b.board.len() == 64
    &&& 0 <= b.row <= 7
    &&& b.col >= 0
    &&& b.white matches Some(p) ==> p.inv() && read_before(p, b.row, b.col) && b.board[p.idx()]
        == Some(Piece { piece_type: PieceTypes::King, owner: Players::White })
    &&& b.black matches Some(p) ==> p.inv() && read_before(p, b.row, b.col) && b.board[p.idx()]
        == Some(Piece { piece_type: PieceTypes::King, owner: Players::Black })
}

proof fn lemma_read_board_kings(t: Seq<char>, n: int)
    ensures
        read_board(t, n) matches Step::Continue(b) ==> kings_read(b),
    decreases n,
{
    if n > 0 {
        lemma_read_board_kings(t, n - 1);
        match read_board(t, n - 1) {
            Step::Continue(b) => {
                let c = t[n - 1];
                if is_letter(c) && b.col != 8 && on_board(b.row, b.col) {
                    let pos = Position::at(b.row, b.col);
                    Position::lemma_at(b.row, b.col);
                    Position::lemma_idx(pos, pos);
                    match b.white {
                        Some(q) => {
                            Position::lemma_idx(q, pos);
                            Position::lemma_eq(q, pos);
                            Position::lemma_idx(q, q);
                        },
                        None => {},
                    }
                    match b.black {
                        Some(q) => {
                            Position::lemma_idx(q, pos);
                            Position::lemma_eq(q, pos);
                            Position::lemma_idx(q, q);
                        },
                        None => {},
                    }
                }
            },
            _ => {},
        }
    }
}

/// A position read from a FEN string has each side's king on the square recorded for it.
pub proof fn lemma_fen_kings(cs: Seq<char>)
    ensures
        read_fen(cs) matches FenOutcome::Accepted(f) ==> {
            &&& f.white.inv()
            &&& f.black.inv()
            &&& f.board[f.white.idx()] == Some(
                Piece { piece_type: PieceTypes::King, owner: Players::White },
            )
            &&& f.board[f.black.idx()] == Some(
                Piece { piece_type: PieceTypes::King, owner: Players::Black },
            )
        },
{
    if has_field(cs, 0) {
        let t0 = field_chars(cs, 0);
        lemma_read_board_kings(t0, t0.len() as int);
    }
}

pub open spec fn empty_board_read() -> BoardRead {
    BoardRead {
        row: 7,
        col: 0,
        board: Seq::new(64, |i: int| None::<Piece>),
        white: None,
        black: None,
    }
}

/// Reading the first `n` characters of the board field `t`.
pub open spec fn read_board(t: Seq<char>, n: int) -> Step<BoardRead>
    decreases n,
{
    if n <= 0 {
        Step::Continue(empty_board_read())
    } else {
        match read_board(t, n - 1) {
            Step::Continue(b) => board_step(b, t[n - 1]),
            other => other,
        }
    }
}

// ---------------------------------------------------------------------------------------
// The other fields

/// Reading the first `n` characters of the castling field: each of `K`, `Q`, `k`, `q` grants
/// a right, `-` grants none; `None` for any other character.
pub open spec fn read_castling(t: Seq<char>, n: int) -> Option<GameState>
    decreases n,
{
    if n <= 0 {
        Some(GameState::from_bits(8))
    } else {
        match read_castling(t, n - 1) {
            Some(s) => {
                let c = t[n - 1];
                if c == 'K' {
                    Some(s.with_right(4))
                } else if c == 'Q' {
                    Some(s.with_right(5))
                } else if c == 'k' {
                    Some(s.with_right(6))
                } else if c == 'q' {
                    Some(s.with_right(7))
                } else if c == '-' {
                    Some(s)
                } else {
                    None
                }
            },
            None => None,
        }
    }
}

/// The byte a character gives when cast with `as u8`.
pub open spec fn char_byte(c: char) -> int {
    (c as u32 as int) % 256
}

/// The byte `v` read as an `i8`.
pub open spec fn byte_as_i8(v: int) -> i8 {
    (if v > 127 {
        v - 256
    } else {
        v
    }) as i8
}

/// Reading the en passant field into `s`: `-` keeps `s`; otherwise the first character gives
/// the column, which must name one of the files a to h.
pub open spec fn read_en_passant(t: Seq<char>, s: GameState) -> Step<GameState> {
    if t =~= seq!['-'] {
        Step::Continue(s)
    } else {
        let b = char_byte(t[0]);
        if b < 97 {
            Step::Panic
        } else {
            let v = byte_as_i8(b - 97);
            if !s.en_passant_fits(v) {
                Step::Panic
            } else {
                let s2 = s.with_en_passant(v);
                if 0 <= s2.spec_en_passant() < 8 {
                    Step::Continue(s2)
                } else {
                    Step::Fail(FenError::InvalidEnPassantSquare)
                }
            }
        }
    }
}

/// A position read from a FEN string.
pub struct FenRead {
    pub board: Seq<Option<Piece>>,
    pub white: Position,
    pub black: Position,
    pub current: Players,
    pub state: GameState,
}

/// What reading a FEN string gives.
pub enum FenOutcome {
    Accepted(FenRead),
    Rejected(FenError),
    Panics,
}

/// Reading a FEN string `cs`: the board, the side to move, the castling rights and the en
/// passant column, in that order; fields after the fourth are ignored.
pub open spec fn read_fen(cs: Seq<char>) -> FenOutcome {
    if !has_field(cs, 0) {
        FenOutcome::Rejected(FenError::MissingBoard)
    } else {
        let t0 = field_chars(cs, 0);
        match read_board(t0, t0.len() as int) {
            Step::Panic => FenOutcome::Panics,
            Step::Fail(e) => FenOutcome::Rejected(e),
            Step::Continue(b) => if !has_field(cs, 1) {
                FenOutcome::Rejected(FenError::MissingPlayer)
            } else {
                let p = field_chars(cs, 1)[0];
                if p != 'w' && p != 'b' {
                    FenOutcome::Rejected(FenError::InvalidPlayer)
                } else if !has_field(cs, 2) {
                    FenOutcome::Rejected(FenError::MissingCastlingRights)
                } else {
                    let t2 = field_chars(cs, 2);
                    match read_castling(t2, t2.len() as int) {
                        None => FenOutcome::Rejected(FenError::InvalidCastlingRight),
                        Some(s) => if !has_field(cs, 3) {
                            FenOutcome::Rejected(FenError::MissingEnPassant)
                        } else {
                            match read_en_passant(field_chars(cs, 3), s) {
                                Step::Panic => FenOutcome::Panics,
                                Step::Fail(e) => FenOutcome::Rejected(e),
                                Step::Continue(s2) => match b.white {
                                    None => FenOutcome::Rejected(FenError::WhiteKingNotFound),
                                    Some(w) => match b.black {
                                        None => FenOutcome::Rejected(
                                            FenError::BlackKingNotFound,
                                        ),
                                        Some(k) => FenOutcome::Accepted(
                                            FenRead {
                                                board: b.board,
                                                white: w,
                                                black: k,
                                                current: if p == 'w' {
                                                    Players::White
                                                } else {
                                                    Players::Black
                                                },
                                                state: s2,
                                            },
                                        ),
                                    },
                                },
                            }
                        },
                    }
                }
            },
        }
    }
}

/// The game a FEN read starts, before the phase check.
pub open spec fn start_game(f: FenRead) -> GameModel {
    let tables = tables_view(initial_tables());
    GameModel {
        score: 0,
        current: f.current,
        history: seq![],
        phase: GamePhase::Opening,
        board: f.board,
        past_scores: Seq::new(
            64,
            |i: int| place_value(tables, f.board[i], Position::at(i / 8, i % 8)),
        ),
        tables,
        kings: seq![f.white, f.black],
        states: seq![f.state],
    }
}


// ---------------------------------------------------------------------------------------
// Lemmas

/// Once reading the board has failed or would panic, it stays so.
proof fn lemma_read_board_stuck(t: Seq<char>, i: int, n: int)
    requires
        0 <= i <= n,
        !(read_board(t, i) is Continue),
    ensures
        read_board(t, n) == read_board(t, i),
    decreases n - i,
{
    if i < n {
        lemma_read_board_stuck(t, i, n - 1);
    }
}

/// Once reading the castling rights has failed, it stays so.
proof fn lemma_read_castling_stuck(t: Seq<char>, i: int, n: int)
    requires
        0 <= i <= n,
        read_castling(t, i) is None,
    ensures
        read_castling(t, n) is None,
    decreases n - i,
{
    if i < n {
        lemma_read_castling_stuck(t, i, n - 1);
    }
}

proof fn lemma_skip_space(cs: Seq<char>, i: int)
    requires
        0 <= i <= cs.len(),
    ensures
        i <= skip_space(cs, i) <= cs.len(),
        i <= word_end(cs, i) <= cs.len(),
        skip_space(cs, i) < cs.len() ==> !is_space(cs[skip_space(cs, i)]),
        i < cs.len() && !is_space(cs[i]) ==> word_end(cs, i) > i,
    decreases cs.len() - i,
{
    if i < cs.len() {
        lemma_skip_space(cs, i + 1);
    }
}

// ---------------------------------------------------------------------------------------
// Reading

/// The characters of `s`.
fn chars_of(s: &str) -> (r: Vec<char>)
    ensures
        r@ == s@,
{
    let n = s.unicode_len();
    let mut v: Vec<char> = Vec::new();
    let mut i: usize = 0;
    while i < n
        invariant
            n == s@.len(),
            i <= n,
            v@ == s@.subrange(0, i as int),
        decreases n - i,
    {
        v.push(s.get_char(i));
        i += 1;
        proof {
            assert(v@ =~= s@.subrange(0, i as int));
        }
    }
    proof {
        assert(v@ =~= s@);
    }
    v
}

fn is_space_char(c: char) -> (r: bool)
    ensures
        r == is_space(c),
{
    c == ' ' || c == '\t' || c == '\n' || c == '\x0C' || c == '\r'
}

/// The bounds of the next field from `from` on.
fn next_field(cs: &Vec<char>, from: usize) -> (r: (usize, usize))
    requires
        from <= cs@.len(),
    ensures
        r.0 == skip_space(cs@, from as int),
        r.1 == word_end(cs@, r.0 as int),
        from <= r.0 <= r.1 <= cs@.len(),
{
    let mut i = from;
    proof {
        lemma_skip_space(cs@, from as int);
    }
    while i < cs.len() && is_space_char(cs[i])
        invariant
            from <= i <= cs@.len(),
            skip_space(cs@, from as int) == skip_space(cs@, i as int),
        decreases cs@.len() - i,
    {
        i += 1;
    }
    let start = i;
    proof {
        lemma_skip_space(cs@, start as int);
    }
    while i < cs.len() && !is_space_char(cs[i])
        invariant
            start <= i <= cs@.len(),
            word_end(cs@, start as int) == word_end(cs@, i as int),
        decreases cs@.len() - i,
    {
        i += 1;
    }
    (start, i)
}

/// A board read from its field.
struct BoardFound {
    board: [Option<Piece>; 64],
    white: Option<Position>,
    black: Option<Position>,
}

/// Reads the board field `cs[s..e]`; `None` where reading would panic.
fn read_board_field(cs: &Vec<char>, s: usize, e: usize) -> (r: Option<Result<BoardFound, FenError>>)
    requires
        s <= e <= cs@.len(),
    ensures
        ({
            let t = cs@.subrange(s as int, e as int);
            match read_board(t, t.len() as int) {
                Step::Panic => r is None,
                Step::Fail(err) => r == Some(Err::<BoardFound, FenError>(err)),
                Step::Continue(b) => r is Some && r->0 is Ok && r->0->Ok_0.board@ == b.board
                    && r->0->Ok_0.white == b.white && r->0->Ok_0.black == b.black,
            }
        }),
{
    let ghost t = cs@.subrange(s as int, e as int);
    let mut board: [Option<Piece>; 64] = [None; 64];
    let mut white: Option<Position> = None;
    let mut black: Option<Position> = None;
    let mut row: i8 = 7;
    let mut col: i8 = 0;
    let mut i = s;
    proof {
        assert(board@ =~= empty_board_read().board);
    }
    while i < e
        invariant
            s <= i <= e <= cs@.len(),
            t == cs@.subrange(s as int, e as int),
            0 <= row <= 7,
            0 <= col,
            read_board(t, i - s) == Step::Continue(
                BoardRead { row: row as int, col: col as int, board: board@, white, black },
            ),
        decreases e - i,
    {
        let c = cs[i];
        let ghost k = i - s;
        assert(t[k] == c);
        if c == '/' {
            if row == 0 {
                proof {
                    lemma_read_board_stuck(t, k + 1, t.len() as int);
                }
                return Some(Err(FenError::TooManyRows));
            }
            col = 0;
            row = row - 1;
        } else if ('a' <= c && c <= 'z') || ('A' <= c && c <= 'Z') {
            if col == 8 {
                proof {
                    lemma_read_board_stuck(t, k + 1, t.len() as int);
                }
                return Some(Err(FenError::TooManyColumns));
            }
            match Piece::from_char_ascii(c) {
                None => {
                    proof {
                        lemma_read_board_stuck(t, k + 1, t.len() as int);
                    }
                    return Some(Err(FenError::InvalidPiece));
                },
                Some(piece) => {
                    if col > 8 {
                        proof {
                            lemma_read_board_stuck(t, k + 1, t.len() as int);
                        }
                        return None;
                    }
                    let position = Position::new_assert(row, col);
                    proof {
                        Position::lemma_at(row as int, col as int);
                    }
                    if piece.piece_type == PieceTypes::King {
                        match piece.owner {
                            Players::White => white = Some(position),
                            Players::Black => black = Some(position),
                        }
                    }
                    board[position.as_usize()] = Some(piece);
                    col = col + 1;
                },
            }
        } else if '0' <= c && c <= '9' {
            let d = (c as u32 - '0' as u32) as i8;
            if col > 127 - d {
                proof {
                    lemma_read_board_stuck(t, k + 1, t.len() as int);
                }
                return None;
            }
            col = col + d;
        } else {
            proof {
                lemma_read_board_stuck(t, k + 1, t.len() as int);
            }
            return Some(Err(FenError::UnknownCharacter));
        }
        i += 1;
    }
    proof {
        assert(i - s == t.len());
    }
    Some(Ok(BoardFound { board, white, black }))
}

/// Reads the castling field `cs[s..e]`.
fn read_castling_field(cs: &Vec<char>, s: usize, e: usize) -> (r: Result<GameState, FenError>)
    requires
        s <= e <= cs@.len(),
    ensures
        ({
            let t = cs@.subrange(s as int, e as int);
            match read_castling(t, t.len() as int) {
                None => r == Err::<GameState, FenError>(FenError::InvalidCastlingRight),
                Some(st) => r == Ok::<GameState, FenError>(st),
            }
        }),
{
    let ghost t = cs@.subrange(s as int, e as int);
    let mut state = GameState::default();
    let mut i = s;
    while i < e
        invariant
            s <= i <= e <= cs@.len(),
            t == cs@.subrange(s as int, e as int),
            read_castling(t, i - s) == Some(state),
        decreases e - i,
    {
        let c = cs[i];
        let ghost k = i - s;
        assert(t[k] == c);
        if c == 'K' {
            state.set_white_king_castling_true();
        } else if c == 'Q' {
            state.set_white_queen_castling_true();
        } else if c == 'k' {
            state.set_black_king_castling_true();
        } else if c == 'q' {
            state.set_black_queen_castling_true();
        } else if c != '-' {
            proof {
                lemma_read_castling_stuck(t, k + 1, t.len() as int);
            }
            return Err(FenError::InvalidCastlingRight);
        }
        i += 1;
    }
    proof {
        assert(i - s == t.len());
    }
    Ok(state)
}

/// Reads the en passant field `cs[s..e]` (not empty) into `state`; `None` where reading
/// would panic.
fn read_en_passant_field(cs: &Vec<char>, s: usize, e: usize, state: GameState) -> (r: Option<Result<GameState, FenError>>)
    requires
        s < e <= cs@.len(),
    ensures
        (match read_en_passant(cs@.subrange(s as int, e as int), state) {
            Step::Panic => r is None,
            Step::Fail(err) => r == Some(Err::<GameState, FenError>(err)),
            Step::Continue(st) => r == Some(Ok::<GameState, FenError>(st)),
        }),
{
    let ghost t = cs@.subrange(s as int, e as int);
    if e - s == 1 && cs[s] == '-' {
        proof {
            assert(t =~= seq!['-']);
        }
        return Some(Ok(state));
    }
    proof {
        assert(!(t =~= seq!['-'])) by {
            if t =~= seq!['-'] {
                assert(t[0] == cs@[s as int]);
            }
        }
        assert(t[0] == cs@[s as int]);
    }
    let col = cs[s];
    let b = (col as u32 % 256) as u8;
    if b < 97 {
        return None;
    }
    let v = b - 97;
    let v8: i8 = if v > 127 {
        (v as i16 - 256) as i8
    } else {
        v as i8
    };
    let mut state = state;
    if !state.en_passant_fits_exec(v8) {
        return None;
    }
    state.set_en_passant(v8);
    let ep = state.en_passant();
    if !(0 <= ep && ep < 8) {
        return Some(Err(FenError::InvalidEnPassantSquare));
    }
    Some(Ok(state))
}


impl ChessGame {
    /// Reads a game from a FEN string. `None` for the strings on which reading would panic
    /// (a piece placed past the eighth column, a run of empty squares that overflows the
    /// column counter, an en passant field whose first character comes before `a`, or one
    /// whose column does not fit next to the castling rights).
    pub fn try_new(fen: &str) -> (r: Option<Result<ChessGame, FenError>>)
        ensures
            (match read_fen(fen@) {
                FenOutcome::Panics => r is None,
                FenOutcome::Rejected(e) => (r matches Some(Err(e2)) && e2 == e),
                FenOutcome::Accepted(f) => (r matches Some(Ok(g)) && g.wf() && g@ == start_game(
                    f,
                ).phase_updated()),
            }),
            r matches Some(Ok(g)) ==> g@.piece_at(g@.king_of(Players::White)) == Some(
                Piece { piece_type: PieceTypes::King, owner: Players::White },
            ) && g@.piece_at(g@.king_of(Players::Black)) == Some(
                Piece { piece_type: PieceTypes::King, owner: Players::Black },
            ),
    {
        let cs = chars_of(fen);
        let ghost c = cs@;
        let (s0, e0) = next_field(&cs, 0);
        if s0 == cs.len() {
            return Some(Err(FenError::MissingBoard));
        }
        proof {
            assert(field(c, 0) == (s0 as int, e0 as int));
        }
        let found = match read_board_field(&cs, s0, e0) {
            None => return None,
            Some(Err(e)) => return Some(Err(e)),
            Some(Ok(found)) => found,
        };
        let (s1, e1) = next_field(&cs, e0);
        proof {
            assert(field(c, 1) == (s1 as int, e1 as int));
        }
        if s1 == cs.len() {
            return Some(Err(FenError::MissingPlayer));
        }
        proof {
            lemma_skip_space(c, e0 as int);
            lemma_skip_space(c, s1 as int);
            assert(field_chars(c, 1)[0] == c[s1 as int]);
        }
        let p = cs[s1];
        let current_player = if p == 'w' {
            Players::White
        } else if p == 'b' {
            Players::Black
        } else {
            return Some(Err(FenError::InvalidPlayer));
        };
        let (s2, e2) = next_field(&cs, e1);
        proof {
            assert(field(c, 2) == (s2 as int, e2 as int));
        }
        if s2 == cs.len() {
            return Some(Err(FenError::MissingCastlingRights));
        }
        let state = match read_castling_field(&cs, s2, e2) {
            Err(e) => return Some(Err(e)),
            Ok(state) => state,
        };
        let (s3, e3) = next_field(&cs, e2);
        proof {
            assert(field(c, 3) == (s3 as int, e3 as int));
        }
        if s3 == cs.len() {
            return Some(Err(FenError::MissingEnPassant));
        }
        proof {
            lemma_skip_space(c, e2 as int);
            lemma_skip_space(c, s3 as int);
            assert(s3 < e3);
        }
        let state = match read_en_passant_field(&cs, s3, e3, state) {
            None => return None,
            Some(Err(e)) => return Some(Err(e)),
            Some(Ok(state)) => state,
        };
        let white = match found.white {
            None => return Some(Err(FenError::WhiteKingNotFound)),
            Some(w) => w,
        };
        let black = match found.black {
            None => return Some(Err(FenError::BlackKingNotFound)),
            Some(b) => b,
        };
        let ghost f = FenRead { board: found.board@, white, black, current: current_player, state };
        let mut game = ChessGame::start(found.board, white, black, current_player, state);
        proof {
            assert(game@ == start_game(f));
        }
        game.update_phase();
        proof {
            lemma_fen_kings(fen@);
        }
        Some(Ok(game))
    }

    /// Reads a game from a FEN string: the board, the side to move, the castling rights and
    /// the en passant column. Fields after the fourth are ignored.
    pub fn new(fen: &str) -> (r: Result<ChessGame, FenError>)
        requires
            !(read_fen(fen@) is Panics),
        ensures
            (match read_fen(fen@) {
                FenOutcome::Rejected(e) => r == Err::<ChessGame, FenError>(e),
                FenOutcome::Accepted(f) => (r matches Ok(g) && g.wf() && g@ == start_game(
                    f,
                ).phase_updated()),
                FenOutcome::Panics => false,
            }),
            r matches Ok(g) ==> g@.piece_at(g@.king_of(Players::White)) == Some(
                Piece { piece_type: PieceTypes::King, owner: Players::White },
            ) && g@.piece_at(g@.king_of(Players::Black)) == Some(
                Piece { piece_type: PieceTypes::King, owner: Players::Black },
            ),
    {
        ChessGame::try_new(fen).unwrap()
    }

    /// The game before the phase check, with its square scores computed from the initial
    /// tables.
    fn start(board: [Option<Piece>; 64], white: Position, black: Position, current_player: Players, state: GameState) -> (r: ChessGame)
        ensures
            r.wf(),
            r@ == start_game(FenRead { board: board@, white, black, current: current_player, state }),
    {
        let piece_scores: ScoreTables = [
            QUEEN_SCORES,
            ROOK_SCORES,
            BISHOP_SCORES,
            KNIGHT_SCORES,
            PAWN_SCORES,
            KING_SCORES_MIDDLE,
        ];
        proof {
            assert(piece_scores == initial_tables());
            assert(tables_ok(tables_view(piece_scores)));
        }
        let mut past_scores: [i16; 64] = [0; 64];
        let mut i: usize = 0;
        while i < 64
            invariant
                i <= 64,
                piece_scores == initial_tables(),
                tables_ok(tables_view(piece_scores)),
                forall|j: int| 0 <= j < i ==> past_scores@[j] == place_value(tables_view(piece_scores), board@[j], Position::at(j / 8, j % 8)),
            decreases 64 - i,
        {
            let row = (i / 8) as i8;
            let col = (i % 8) as i8;
            let position = Position::new_assert(row, col);
            proof {
                Position::lemma_at(row as int, col as int);
            }
            past_scores[i] = match board[i] {
                Some(piece) => piece.score(position, &piece_scores),
                None => 0,
            };
            i += 1;
        }
        let mut state_stack = crate::arrays::states_new();
        crate::arrays::states_push(&mut state_stack, state);
        proof {
            use_type_invariant(&white);
            use_type_invariant(&black);
        }
        let game = ChessGame {
            board,
            move_stack: Vec::new(),
            king_positions: [white, black],
            current_player,
            score: 0,
            state: state_stack,
            past_scores,
            piece_scores,
            phase: GamePhase::Opening,
        };
        proof {
            let f = FenRead { board: board@, white, black, current: current_player, state };
            assert(game@.past_scores =~= start_game(f).past_scores);
            assert(game@.kings =~= start_game(f).kings);
            assert(game@.states =~= start_game(f).states);
            assert(game@.history =~= start_game(f).history);
        }
        game
    }
}

/// The piece on square `i` in the starting position.
pub open spec fn initial_place(i: int) -> Option<Piece> {
    let row = i / 8;
    let col = i % 8;
    let back = if col == 0 || col == 7 {
        PieceTypes::Rook
    } else if col == 1 || col == 6 {
        PieceTypes::Knight
    } else if col == 2 || col == 5 {
        PieceTypes::Bishop
    } else if col == 3 {
        PieceTypes::Queen
    } else {
        PieceTypes::King
    };
    if row == 0 {
        Some(Piece { piece_type: back, owner: Players::White })
    } else if row == 1 {
        Some(Piece { piece_type: PieceTypes::Pawn, owner: Players::White })
    } else if row == 6 {
        Some(Piece { piece_type: PieceTypes::Pawn, owner: Players::Black })
    } else if row == 7 {
        Some(Piece { piece_type: back, owner: Players::Black })
    } else {
        None
    }
}

/// The starting position: all pieces home, White to move, all castling rights, no en
/// passant column.
pub open spec fn initial_read() -> FenRead {
    FenRead {
        board: Seq::new(64, |i: int| initial_place(i)),
        white: Position::at(0, 4),
        black: Position::at(7, 4),
        current: Players::White,
        state: GameState::from_bits(8).with_right(4).with_right(5).with_right(6).with_right(7),
    }
}

fn initial_piece(i: usize) -> (r: Option<Piece>)
    requires
        i < 64,
    ensures
        r == initial_place(i as int),
{
    let row = i / 8;
    let col = i % 8;
    let back = if col == 0 || col == 7 {
        PieceTypes::Rook
    } else if col == 1 || col == 6 {
        PieceTypes::Knight
    } else if col == 2 || col == 5 {
        PieceTypes::Bishop
    } else if col == 3 {
        PieceTypes::Queen
    } else {
        PieceTypes::King
    };
    if row == 0 {
        Some(Piece { piece_type: back, owner: Players::White })
    } else if row == 1 {
        Some(Piece { piece_type: PieceTypes::Pawn, owner: Players::White })
    } else if row == 6 {
        Some(Piece { piece_type: PieceTypes::Pawn, owner: Players::Black })
    } else if row == 7 {
        Some(Piece { piece_type: back, owner: Players::Black })
    } else {
        None
    }
}

impl Default for ChessGame {
    /// The starting position (what the FEN string
    /// `rnbqkbnr/pppppppp/8/8/8/8/PPPPPPPP/RNBQKBNR w KQkq - 0 1` describes).
    fn default() -> (r: Self)
        ensures
            r.wf(),
            r@ == start_game(initial_read()).phase_updated(),
            r@.consistent(),
            r@.scores_consistent(),
    {
        let mut board: [Option<Piece>; 64] = [None; 64];
        let mut i: usize = 0;
        while i < 64
            invariant
                i <= 64,
                forall|j: int| 0 <= j < i ==> board@[j] == initial_place(j),
            decreases 64 - i,
        {
            board[i] = initial_piece(i);
            i += 1;
        }
        proof {
            assert(board@ =~= initial_read().board);
            Position::lemma_at(0, 4);
            Position::lemma_at(7, 4);
        }
        let mut state = GameState::default();
        state.set_white_king_castling_true();
        state.set_white_queen_castling_true();
        state.set_black_king_castling_true();
        state.set_black_queen_castling_true();
        let mut game = ChessGame::start(
            board,
            Position::new_assert(0, 4),
            Position::new_assert(7, 4),
            Players::White,
            state,
        );
        game.update_phase();
        proof {
            crate::move_laws::lemma_start_steady(game@);
        }
        game
    }
}
} // verus!
