use vstd::prelude::*;
use vstd::string::StringSliceAdditionalSpecFns;

use crate::chess_game::{abs_int, ChessGame, GameModel, Players};
use crate::piece::{Piece, PieceTypes};
use crate::position::{on_board, Position};

verus! {

#[derive(PartialEq, Eq, Structural, Clone, Copy, Debug, Hash)]
pub enum Move {
    Normal { piece: Piece, start: Position, end: Position, captured_piece: Option<Piece> },
    Promotion {
        owner: Players,
        new_piece: PieceTypes,
        start: Position,
        end: Position,
        captured_piece: Option<Piece>,
    },
    CastlingShort { owner: Players },
    CastlingLong { owner: Players },
    EnPassant { owner: Players, start_col: i8, end_col: i8 },
}

/// The letter of file `col`, counting from 'a'.
pub open spec fn file_char(col: int) -> char {
    (97 + col) as char
}

/// The digit of rank `row`, counting from '1'.
pub open spec fn rank_char(row: int) -> char {
    (49 + row) as char
}

/// The name of a square, such as "e4".
pub open spec fn square_name(p: Position) -> Seq<char> {
    seq![file_char(p.spec_col() as int), rank_char(p.spec_row() as int)]
}

/// The rank on which `owner` castles.
pub open spec fn castling_rank(owner: Players) -> char {
    match owner {
        Players::White => '1',
        Players::Black => '8',
    }
}

/// The ranks that an en passant capture of `owner` starts from and lands on.
pub open spec fn en_passant_ranks(owner: Players) -> (char, char) {
    match owner {
        Players::White => ('5', '6'),
        Players::Black => ('4', '3'),
    }
}

/// The letter that names a promotion piece in UCI notation.
///
/// This engine writes 'k' for a bishop and 'b' for a knight.
pub open spec fn uci_promotion_letter(t: PieceTypes) -> char {
    match t {
        PieceTypes::Queen => 'q',
        PieceTypes::Rook => 'r',
        PieceTypes::Bishop => 'k',
        _ => 'b',
    }
}

/// The letter that names a promotion piece in PGN notation ('K' for a bishop, 'B' for a knight).
pub open spec fn pgn_promotion_letter(t: PieceTypes) -> char {
    match t {
        PieceTypes::Queen => 'Q',
        PieceTypes::Rook => 'R',
        PieceTypes::Bishop => 'K',
        _ => 'B',
    }
}

/// `['x']` for a capture, nothing otherwise.
pub open spec fn capture_mark(captured: Option<Piece>) -> Seq<char> {
    if captured is Some {
        seq!['x']
    } else {
        seq![]
    }
}

/// The decimal digits of `n`.
pub open spec fn decimal(n: nat) -> Seq<char>
    decreases n,
{
    if n < 10 {
        seq![(48 + n) as char]
    } else {
        decimal(n / 10).push((48 + n % 10) as char)
    }
}

/// The move list of a game in PGN form: each White move is preceded by its number,
/// a dot and a space, and each move is followed by a space.
pub open spec fn pgn_text(moves: Seq<Move>) -> Seq<char>
    decreases moves.len(),
{
    if moves.len() == 0 {
        seq![]
    } else {
        let i = moves.len() - 1;
        let number = if i % 2 == 0 {
            decimal((i / 2 + 1) as nat) + seq!['.', ' ']
        } else {
            seq![]
        };
        pgn_text(moves.drop_last()) + number + moves.last().pgn() + seq![' ']
    }
}

/// The promotion piece that the fifth letter of a UCI move names.
pub open spec fn promotion_from_letter(b: u8) -> Option<PieceTypes> {
    if b == 113 {
        Some(PieceTypes::Queen)
    } else if b == 114 {
        Some(PieceTypes::Rook)
    } else if b == 107 {
        Some(PieceTypes::Bishop)
    } else if b == 98 {
        Some(PieceTypes::Knight)
    } else {
        None
    }
}

/// Reads a move in UCI notation from its bytes `b`, in the position `game`.
///
/// The four castling moves are recognised by their text alone; a fifth letter makes the
/// move a promotion; a pawn moving diagonally to an empty square captures en passant.
pub open spec fn parse_uci(b: Seq<u8>, game: GameModel) -> Result<Move, Seq<char>> {
    if b.len() != 4 && b.len() != 5 {
        Err("Invalid move length"@)
    } else if b == seq![101u8, 49u8, 103u8, 49u8] {
        Ok(Move::CastlingShort { owner: Players::White })
    } else if b == seq![101u8, 56u8, 103u8, 56u8] {
        Ok(Move::CastlingShort { owner: Players::Black })
    } else if b == seq![101u8, 49u8, 99u8, 49u8] {
        Ok(Move::CastlingLong { owner: Players::White })
    } else if b == seq![101u8, 56u8, 99u8, 56u8] {
        Ok(Move::CastlingLong { owner: Players::Black })
    } else {
        let start_col = b[0] - 97;
        let start_row = b[1] - 49;
        let end_col = b[2] - 97;
        let end_row = b[3] - 49;
        if !on_board(start_row, start_col) || !on_board(end_row, end_col) {
            Err("Invalid position"@)
        } else {
            let start = Position::at(start_row, start_col);
            let end = Position::at(end_row, end_col);
            if b.len() == 5 {
                match promotion_from_letter(b[4]) {
                    Some(new_piece) => Ok(
                        Move::Promotion {
                            owner: game.current,
                            new_piece,
                            start,
                            end,
                            captured_piece: game.piece_at(end),
                        },
                    ),
                    None => Err("Invalid piece"@),
                }
            } else {
                match game.piece_at(start) {
                    Some(piece) => if piece.piece_type == PieceTypes::Pawn && game.piece_at(end)
                        is None && abs_int(start_col - end_col) == 1 {
                        Ok(
                            Move::EnPassant {
                                owner: game.current,
                                start_col: start_col as i8,
                                end_col: end_col as i8,
                            },
                        )
                    } else {
                        Ok(Move::Normal { piece, start, end, captured_piece: game.piece_at(end) })
                    },
                    None => Err("Start square is empty"@),
                }
            }
        }
    }
}

/// The move list of a game in UCI notation, each move followed by a space.
pub open spec fn uci_text(moves: Seq<Move>) -> Seq<char>
    decreases moves.len(),
{
    if moves.len() == 0 {
        seq![]
    } else {
        uci_text(moves.drop_last()) + moves.last().uci() + seq![' ']
    }
}

/// The name of a side.
pub open spec fn player_name(p: Players) -> Seq<char> {
    match p {
        Players::White => "White"@,
        Players::Black => "Black"@,
    }
}

/// The name of a piece kind.
pub open spec fn kind_name(t: PieceTypes) -> Seq<char> {
    match t {
        PieceTypes::Queen => "Queen"@,
        PieceTypes::Rook => "Rook"@,
        PieceTypes::Bishop => "Bishop"@,
        PieceTypes::Knight => "Knight"@,
        PieceTypes::Pawn => "Pawn"@,
        PieceTypes::King => "King"@,
    }
}

/// A captured piece as the move description shows it: `Some("Black Pawn")` or `None`.
pub open spec fn captured_text(captured: Option<Piece>) -> Seq<char> {
    match captured {
        Some(p) => "Some(\""@ + player_name(p.owner) + " "@ + kind_name(p.piece_type) + "\")"@,
        None => "None"@,
    }
}

/// The digit of a coordinate in `0..8`.
pub open spec fn digit(n: int) -> Seq<char> {
    seq![(48 + n) as char]
}

impl Move {
    /// The move described for debugging: side, piece, squares as row and column, and the
    /// captured piece of a plain move; the side of a castling move; nothing for the others.
    pub open spec fn spec_description(self) -> Seq<char> {
        match self {
            Move::Normal { piece, start, end, captured_piece } => player_name(piece.owner) + " "@
                + kind_name(piece.piece_type) + " from "@ + digit(start.spec_row() as int) + " "@
                + digit(start.spec_col() as int) + " to "@ + digit(end.spec_row() as int) + " "@
                + digit(end.spec_col() as int) + ", captured "@ + captured_text(captured_piece)
                + " "@,
            Move::CastlingLong { owner } => "castling long "@ + player_name(owner) + " "@,
            Move::CastlingShort { owner } => "castling short "@ + player_name(owner) + " "@,
            _ => "not supported"@,
        }
    }
}

/// The move takes a piece: a plain move or a promotion onto an occupied square, or a
/// capture en passant.
pub open spec fn captures(m: Move) -> bool {
    match m {
        Move::Normal { captured_piece, .. } => captured_piece is Some,
        Move::Promotion { captured_piece, .. } => captured_piece is Some,
        Move::EnPassant { .. } => true,
        _ => false,
    }
}

proof fn lemma_square_chars(p: Position)
    requires
        p.inv(),
    ensures
        file_char(p.spec_col() as int) != 'x',
        rank_char(p.spec_row() as int) != 'x',
{
    Position::lemma_inv(p);
}

/// The PGN text of a move holds the capture mark 'x' exactly when the move takes a piece.
pub proof fn lemma_pgn_capture_mark(m: Move)
    requires
        m.wf(),
    ensures
        m.pgn().contains('x') <==> captures(m),
{
    let t = m.pgn();
    match m {
        Move::Normal { piece, start, end, captured_piece } => {
            lemma_square_chars(start);
            lemma_square_chars(end);
            let l = piece.spec_letter();
            assert(l.len() <= 1);
            assert(forall|i: int| 0 <= i < l.len() ==> l[i] != 'x');
            if captured_piece is Some {
                assert(t[l.len() as int + 1] == 'x');
            } else {
                assert forall|i: int| 0 <= i < t.len() implies t[i] != 'x' by {
                    if i < l.len() {
                        assert(t[i] == l[i]);
                    } else if i == l.len() {
                        assert(t[i] == file_char(start.spec_col() as int));
                    } else if i == l.len() + 1 {
                        assert(t[i] == file_char(end.spec_col() as int));
                    } else {
                        assert(t[i] == rank_char(end.spec_row() as int));
                    }
                }
            }
        },
        Move::Promotion { end, captured_piece, new_piece, .. } => {
            lemma_square_chars(end);
            if captured_piece is Some {
                assert(t[0] == 'x');
            } else {
                assert(t =~= seq![
                    file_char(end.spec_col() as int),
                    rank_char(end.spec_row() as int),
                    '=',
                    pgn_promotion_letter(new_piece),
                ]);
            }
        },
        Move::EnPassant { .. } => {
            assert(t[1] == 'x');
        },
        Move::CastlingShort { .. } => {},
        Move::CastlingLong { .. } => {},
    }
}

/// Appends a character to a string.
///
/// Calls `String::push`; the contract claims that the string afterwards holds its old
/// characters followed by `c`.
#[verifier::external_body]
pub(crate) fn push_char(s: &mut String, c: char)
    ensures
        final(s)@ == old(s)@.push(c),
{
    s.push(c);
}

fn file_letter(col: i8) -> (r: char)
    requires
        0 <= col,
    ensures
        r == file_char(col as int),
{
    (col as u8 + 97u8) as char
}

pub(crate) fn rank_digit(row: i8) -> (r: char)
    requires
        0 <= row < 8,
    ensures
        r == rank_char(row as int),
{
    (row as u8 + 49u8) as char
}

fn push_square(s: &mut String, p: Position)
    ensures
        final(s)@ == old(s)@ + square_name(p),
{
    push_char(s, file_letter(p.col()));
    push_char(s, rank_digit(p.row()));
    assert(final(s)@ =~= old(s)@ + square_name(p));
}

/// Appends the decimal digits of `n` to `s`.
pub(crate) fn push_decimal(s: &mut String, n: usize)
    ensures
        final(s)@ == old(s)@ + decimal(n as nat),
    decreases n,
{
    if n >= 10 {
        push_decimal(s, n / 10);
    }
    let d: u8 = (n % 10) as u8;
    push_char(s, (d + 48u8) as char);
    assert(final(s)@ =~= old(s)@ + decimal(n as nat));
}

fn push_player(s: &mut String, p: Players)
    ensures
        final(s)@ == old(s)@ + player_name(p),
{
    match p {
        Players::White => {
            proof {
                reveal_strlit("White");
            }
            s.append("White");
        },
        Players::Black => {
            proof {
                reveal_strlit("Black");
            }
            s.append("Black");
        },
    }
}

fn push_kind(s: &mut String, t: PieceTypes)
    ensures
        final(s)@ == old(s)@ + kind_name(t),
{
    match t {
        PieceTypes::Queen => {
            proof {
                reveal_strlit("Queen");
            }
            s.append("Queen");
        },
        PieceTypes::Rook => {
            proof {
                reveal_strlit("Rook");
            }
            s.append("Rook");
        },
        PieceTypes::Bishop => {
            proof {
                reveal_strlit("Bishop");
            }
            s.append("Bishop");
        },
        PieceTypes::Knight => {
            proof {
                reveal_strlit("Knight");
            }
            s.append("Knight");
        },
        PieceTypes::Pawn => {
            proof {
                reveal_strlit("Pawn");
            }
            s.append("Pawn");
        },
        PieceTypes::King => {
            proof {
                reveal_strlit("King");
            }
            s.append("King");
        },
    }
}

fn push_digit(s: &mut String, n: i8)
    requires
        0 <= n < 8,
    ensures
        final(s)@ == old(s)@ + digit(n as int),
{
    push_char(s, (n as u8 + 48u8) as char);
    assert(final(s)@ =~= old(s)@ + digit(n as int));
}

impl Move {
    /// The squares of the move are on the board.
    pub open spec fn wf(self) -> bool {
        match self {
            Move::Normal { start, end, .. } => start.inv() && end.inv(),
            Move::Promotion { start, end, .. } => start.inv() && end.inv(),
            Move::EnPassant { start_col, end_col, .. } => 0 <= start_col < 8 && 0 <= end_col < 8,
            _ => true,
        }
    }

    /// A capture or a promotion: the moves that the quiescence search looks at.
    pub open spec fn spec_is_tactical(&self) -> bool {
        match self {
            Move::Normal { captured_piece, .. } => captured_piece is Some,
            Move::Promotion { .. } => true,
            Move::EnPassant { .. } => true,
            _ => false,
        }
    }

    #[verifier::when_used_as_spec(spec_is_tactical)]
    pub fn is_tactical_move(&self) -> (r: bool)
        ensures
            r == self.spec_is_tactical(),
    {
        match self {
            Move::Normal { captured_piece, .. } => captured_piece.is_some(),
            Move::Promotion { .. } => true,
            Move::EnPassant { .. } => true,
            _ => false,
        }
    }

    /// The move can be written down: a promotion is to a queen, rook, bishop or knight,
    /// and the files of an en passant capture are not negative.
    pub open spec fn writable(self) -> bool {
        match self {
            Move::Promotion { new_piece, .. } => new_piece != PieceTypes::Pawn && new_piece
                != PieceTypes::King,
            Move::EnPassant { start_col, end_col, .. } => 0 <= start_col && 0 <= end_col,
            _ => true,
        }
    }

    /// The move in UCI notation: start square, end square, and the promotion letter.
    pub open spec fn uci(self) -> Seq<char> {
        match self {
            Move::Normal { start, end, .. } => square_name(start) + square_name(end),
            Move::Promotion { start, end, new_piece, .. } => (square_name(start) + square_name(
                end,
            )).push(uci_promotion_letter(new_piece)),
            Move::CastlingShort { owner } => seq![
                'e',
                castling_rank(owner),
                'g',
                castling_rank(owner),
            ],
            Move::CastlingLong { owner } => seq![
                'e',
                castling_rank(owner),
                'c',
                castling_rank(owner),
            ],
            Move::EnPassant { owner, start_col, end_col } => seq![
                file_char(start_col as int),
                en_passant_ranks(owner).0,
                file_char(end_col as int),
                en_passant_ranks(owner).1,
            ],
        }
    }

    /// The move described for debugging, as `spec_description` gives it.
    pub fn description(&self) -> (r: String)
        ensures
            r@ == self.spec_description(),
    {
        let mut s = String::new();
        proof {
            reveal_strlit(" ");
            reveal_strlit(" from ");
            reveal_strlit(" to ");
            reveal_strlit(", captured ");
            reveal_strlit("Some(\"");
            reveal_strlit("\")");
            reveal_strlit("None");
            reveal_strlit("castling long ");
            reveal_strlit("castling short ");
            reveal_strlit("not supported");
        }
        match self {
            Move::Normal { piece, start, end, captured_piece } => {
                push_player(&mut s, piece.owner);
                s.append(" ");
                push_kind(&mut s, piece.piece_type);
                s.append(" from ");
                push_digit(&mut s, start.row());
                s.append(" ");
                push_digit(&mut s, start.col());
                s.append(" to ");
                push_digit(&mut s, end.row());
                s.append(" ");
                push_digit(&mut s, end.col());
                s.append(", captured ");
                let ghost before = s@;
                match captured_piece {
                    Some(p) => {
                        s.append("Some(\"");
                        push_player(&mut s, p.owner);
                        s.append(" ");
                        push_kind(&mut s, p.piece_type);
                        s.append("\")");
                    },
                    None => {
                        s.append("None");
                    },
                }
                assert(s@ =~= before + captured_text(*captured_piece));
                s.append(" ");
            },
            Move::CastlingLong { owner } => {
                s.append("castling long ");
                push_player(&mut s, *owner);
                s.append(" ");
            },
            Move::CastlingShort { owner } => {
                s.append("castling short ");
                push_player(&mut s, *owner);
                s.append(" ");
            },
            _ => {
                s.append("not supported");
            },
        }
        assert(s@ =~= self.spec_description());
        s
    }

    pub fn uci_notation(&self) -> (r: String)
        requires
            self.writable(),
        ensures
            r@ == self.uci(),
    {
        let mut s = String::new();
        match self {
            Move::Normal { start, end, .. } => {
                push_square(&mut s, *start);
                push_square(&mut s, *end);
            },
            Move::Promotion { start, end, new_piece, .. } => {
                push_square(&mut s, *start);
                push_square(&mut s, *end);
                let letter = match new_piece {
                    PieceTypes::Queen => 'q',
                    PieceTypes::Rook => 'r',
                    PieceTypes::Bishop => 'k',
                    _ => 'b',
                };
                push_char(&mut s, letter);
            },
            Move::CastlingShort { owner } => {
                let row = match owner {
                    Players::White => '1',
                    Players::Black => '8',
                };
                push_char(&mut s, 'e');
                push_char(&mut s, row);
                push_char(&mut s, 'g');
                push_char(&mut s, row);
            },
            Move::CastlingLong { owner } => {
                let row = match owner {
                    Players::White => '1',
                    Players::Black => '8',
                };
                push_char(&mut s, 'e');
                push_char(&mut s, row);
                push_char(&mut s, 'c');
                push_char(&mut s, row);
            },
            Move::EnPassant { owner, start_col, end_col } => {
                let (start_row, end_row) = match owner {
                    Players::White => ('5', '6'),
                    Players::Black => ('4', '3'),
                };
                push_char(&mut s, file_letter(*start_col));
                push_char(&mut s, start_row);
                push_char(&mut s, file_letter(*end_col));
                push_char(&mut s, end_row);
            },
        }
        assert(s@ =~= self.uci());
        s
    }

    pub fn pgn_notation(&self) -> (r: String)
        requires
            self.writable(),
        ensures
            r@ == self.pgn(),
    {
        let mut s = String::new();
        match self {
            Move::Normal { piece, start, end, captured_piece } => {
                s.append(piece.as_char_ascii());
                push_char(&mut s, file_letter(start.col()));
                if captured_piece.is_some() {
                    push_char(&mut s, 'x');
                }
                push_square(&mut s, *end);
            },
            Move::CastlingShort { .. } => {
                push_char(&mut s, 'O');
                push_char(&mut s, '-');
                push_char(&mut s, 'O');
            },
            Move::CastlingLong { .. } => {
                push_char(&mut s, 'O');
                push_char(&mut s, '-');
                push_char(&mut s, 'O');
                push_char(&mut s, '-');
                push_char(&mut s, 'O');
            },
            Move::EnPassant { start_col, end_col, owner } => {
                push_char(&mut s, file_letter(*start_col));
                push_char(&mut s, 'x');
                push_char(&mut s, file_letter(*end_col));
                match owner {
                    Players::White => push_char(&mut s, '6'),
                    Players::Black => push_char(&mut s, '3'),
                }
            },
            Move::Promotion { end, captured_piece, new_piece, .. } => {
                if captured_piece.is_some() {
                    push_char(&mut s, 'x');
                }
                push_square(&mut s, *end);
                push_char(&mut s, '=');
                let letter = match new_piece {
                    PieceTypes::Queen => 'Q',
                    PieceTypes::Rook => 'R',
                    PieceTypes::Bishop => 'K',
                    _ => 'B',
                };
                push_char(&mut s, letter);
            },
        }
        assert(s@ =~= self.pgn());
        s
    }

    /// Reads a move in UCI notation, such as "e2e4" or "a7a8q", in the position `game`.
    pub fn from_uci_notation(s: &str, game: &ChessGame) -> (r: Result<Self, &'static str>)
        requires
            game.wf(),
        ensures
            r matches Ok(m) ==> parse_uci(s.spec_bytes(), game@) == Ok::<Move, Seq<char>>(m),
            r matches Err(e) ==> parse_uci(s.spec_bytes(), game@) == Err::<Move, Seq<char>>(e@),
            r matches Ok(m) ==> m.wf(),
    {
        let b = s.as_bytes();
        let n = s.len();
        if n != 4 && n != 5 {
            proof {
                reveal_strlit("Invalid move length");
            }
            return Err("Invalid move length");
        }
        if n == 4 && b[0] == 101u8 && b[1] == 49u8 && b[2] == 103u8 && b[3] == 49u8 {
            assert(b@ =~= seq![101u8, 49u8, 103u8, 49u8]);
            return Ok(Move::CastlingShort { owner: Players::White });
        }
        if n == 4 && b[0] == 101u8 && b[1] == 56u8 && b[2] == 103u8 && b[3] == 56u8 {
            assert(b@ =~= seq![101u8, 56u8, 103u8, 56u8]);
            return Ok(Move::CastlingShort { owner: Players::Black });
        }
        if n == 4 && b[0] == 101u8 && b[1] == 49u8 && b[2] == 99u8 && b[3] == 49u8 {
            assert(b@ =~= seq![101u8, 49u8, 99u8, 49u8]);
            return Ok(Move::CastlingLong { owner: Players::White });
        }
        if n == 4 && b[0] == 101u8 && b[1] == 56u8 && b[2] == 99u8 && b[3] == 56u8 {
            assert(b@ =~= seq![101u8, 56u8, 99u8, 56u8]);
            return Ok(Move::CastlingLong { owner: Players::Black });
        }
        let start_col: i16 = b[0] as i16 - 97;
        let start_row: i16 = b[1] as i16 - 49;
        let end_col: i16 = b[2] as i16 - 97;
        let end_row: i16 = b[3] as i16 - 49;
        if !(0 <= start_row && start_row < 8 && 0 <= start_col && start_col < 8 && 0 <= end_row
            && end_row < 8 && 0 <= end_col && end_col < 8) {
            proof {
                reveal_strlit("Invalid position");
            }
            return Err("Invalid position");
        }
        let start = Position::new_assert(start_row as i8, start_col as i8);
        let end = Position::new_assert(end_row as i8, end_col as i8);
        proof {
            Position::lemma_at(start_row as int, start_col as int);
            Position::lemma_at(end_row as int, end_col as int);
        }
        let captured_piece = game.get_position(end);
        if n == 5 {
            let letter = b[4];
            let new_piece = if letter == 113u8 {
                PieceTypes::Queen
            } else if letter == 114u8 {
                PieceTypes::Rook
            } else if letter == 107u8 {
                PieceTypes::Bishop
            } else if letter == 98u8 {
                PieceTypes::Knight
            } else {
                proof {
                    reveal_strlit("Invalid piece");
                }
                return Err("Invalid piece");
            };
            return Ok(
                Move::Promotion {
                    owner: game.current_player,
                    start,
                    end,
                    new_piece,
                    captured_piece,
                },
            );
        }
        match game.get_position(start) {
            Some(piece) => {
                let diff = start.col() - end.col();
                if piece.piece_type == PieceTypes::Pawn && captured_piece.is_none() && (diff == 1
                    || diff == -1) {
                    Ok(
                        Move::EnPassant {
                            owner: game.current_player,
                            start_col: start.col(),
                            end_col: end.col(),
                        },
                    )
                } else {
                    Ok(Move::Normal { piece, start, end, captured_piece })
                }
            },
            None => {
                proof {
                    reveal_strlit("Start square is empty");
                }
                Err("Start square is empty")
            },
        }
    }

    /// The move in the short algebraic notation of PGN, as this engine writes it:
    /// the piece letter, the start file, 'x' on a capture and the end square.
    pub open spec fn pgn(self) -> Seq<char> {
        match self {
            Move::Normal { piece, start, end, captured_piece } => piece.spec_letter() + seq![
                file_char(start.spec_col() as int),
            ] + capture_mark(captured_piece) + square_name(end),
            Move::CastlingShort { .. } => seq!['O', '-', 'O'],
            Move::CastlingLong { .. } => seq!['O', '-', 'O', '-', 'O'],
            Move::EnPassant { start_col, end_col, owner } => seq![
                file_char(start_col as int),
                'x',
                file_char(end_col as int),
                en_passant_ranks(owner).1,
            ],
            Move::Promotion { end, captured_piece, new_piece, .. } => (capture_mark(captured_piece)
                + square_name(end)).push('=').push(pgn_promotion_letter(new_piece)),
        }
    }
}

} // verus!
