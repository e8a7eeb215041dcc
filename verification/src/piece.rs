use vstd::prelude::*;

use arrayvec::ArrayVec;

use crate::arrays::{move_items, moves_len, moves_try_push};
use crate::chess_game::{ChessGame, Players};
use crate::move_struct::Move;
use crate::movegen::{
    bishop_dirs, capped, king_moves, king_step, king_step_moves, king_steps, knight_moves,
    knight_step, knight_steps, lemma_capped_concat, lemma_capped_push, lemma_capped_short, long_castling,
    pawn_capture, pawn_double, pawn_en_passant, pawn_moves, pawn_single, pawn_to, piece_moves,
    promotions, queen_dirs, ray_moves, rook_dirs, short_castling, slide_moves,
};
use crate::position::{on_board, Position};

verus! {

/// The kinds of chess pieces; the order matches the order of the score tables.
#[derive(PartialEq, Eq, Structural, Clone, Copy, Debug, PartialOrd, Ord, Hash)]
pub enum PieceTypes {
    Queen,
    Rook,
    Bishop,
    Knight,
    Pawn,
    King,
}

#[derive(Clone, Copy, PartialEq, Eq, Structural, Debug, Hash)]
pub struct Piece {
    pub piece_type: PieceTypes,
    pub owner: Players,
}

pub type Score = i16;

/// The score tables, one row of 64 squares per piece type, seen from White's side
/// (index 0 is the square a8).
pub type ScoreTables = [[i16; 64]; 6];

impl PieceTypes {
    pub open spec fn spec_index(self) -> int {
        match self {
            PieceTypes::Queen => 0,
            PieceTypes::Rook => 1,
            PieceTypes::Bishop => 2,
            PieceTypes::Knight => 3,
            PieceTypes::Pawn => 4,
            PieceTypes::King => 5,
        }
    }

    /// Position of this kind in the score tables.
    pub fn index(self) -> (r: usize)
        ensures
            r == self.spec_index(),
    {
        match self {
            PieceTypes::Queen => 0,
            PieceTypes::Rook => 1,
            PieceTypes::Bishop => 2,
            PieceTypes::Knight => 3,
            PieceTypes::Pawn => 4,
            PieceTypes::King => 5,
        }
    }
}

/// The row of the score table that applies to a piece of `owner` standing on `row`.
pub open spec fn table_row(owner: Players, row: int) -> int {
    match owner {
        Players::White => 7 - row,
        Players::Black => row,
    }
}

/// The table entry that applies to a piece standing on `pos`.
pub open spec fn table_entry(tables: Seq<Seq<i16>>, piece: Piece, pos: Position) -> int {
    tables[piece.piece_type.spec_index()][table_row(piece.owner, pos.spec_row() as int) * 8
        + pos.spec_col()] as int
}

/// No table entry is `i16::MIN`, so every entry can change sign.
pub open spec fn tables_ok(tables: Seq<Seq<i16>>) -> bool {
    &&& tables.len() == 6
    &&& forall|t: int| 0 <= t < 6 ==> #[trigger] tables[t].len() == 64
    &&& forall|t: int, i: int| 0 <= t < 6 && 0 <= i < 64 ==> #[trigger] tables[t][i] > i16::MIN
}

/// What a piece on `pos` adds to the score: its table entry, negated for Black.
pub open spec fn piece_value(tables: Seq<Seq<i16>>, piece: Piece, pos: Position) -> int {
    table_entry(tables, piece, pos) * piece.owner.spec_sign()
}

/// What a square holding `place` adds to the score.
pub open spec fn place_value(tables: Seq<Seq<i16>>, place: Option<Piece>, pos: Position) -> i16 {
    match place {
        Some(piece) => piece_value(tables, piece, pos) as i16,
        None => 0,
    }
}

/// A black piece is worth the opposite of a white piece of the same kind standing on the
/// square mirrored across the middle of the board.
pub proof fn lemma_value_mirror(tables: Seq<Seq<i16>>, t: PieceTypes, row: int, col: int)
    requires
        on_board(row, col),
    ensures
        piece_value(tables, Piece { piece_type: t, owner: Players::Black }, Position::at(7 - row, col))
            == -piece_value(tables, Piece { piece_type: t, owner: Players::White }, Position::at(row, col)),
{
    Position::lemma_at(row, col);
    Position::lemma_at(7 - row, col);
}

pub open spec fn tables_view(tables: ScoreTables) -> Seq<Seq<i16>> {
    tables@.map_values(|row: [i16; 64]| row@)
}

impl Piece {
    /// The score of this piece standing on `pos`, according to `scores`.
    pub fn score(self, pos: Position, scores: &ScoreTables) -> (r: Score)
        requires
            tables_ok(tables_view(*scores)),
        ensures
            r == piece_value(tables_view(*scores), self, pos),
    {
        proof {
            use_type_invariant(&pos);
        }
        let row = match self.owner {
            Players::White => 7 - pos.row(),
            Players::Black => pos.row(),
        };
        let index = (row * 8 + pos.col()) as usize;
        let t = self.piece_type.index();
        let piece_score = scores[t][index];
        proof {
            assert(tables_view(*scores)[t as int] == scores@[t as int]@);
            assert(tables_view(*scores)[t as int][index as int] > i16::MIN);
        }
        match self.owner {
            Players::White => piece_score,
            Players::Black => -piece_score,
        }
    }

    pub open spec fn spec_glyph(self) -> char {
        match self.owner {
            Players::White => match self.piece_type {
                PieceTypes::King => '\u{2654}',
                PieceTypes::Queen => '\u{2655}',
                PieceTypes::Rook => '\u{2656}',
                PieceTypes::Bishop => '\u{2657}',
                PieceTypes::Knight => '\u{2658}',
                PieceTypes::Pawn => '\u{2659}',
            },
            Players::Black => match self.piece_type {
                PieceTypes::King => '\u{265A}',
                PieceTypes::Queen => '\u{265B}',
                PieceTypes::Rook => '\u{265C}',
                PieceTypes::Bishop => '\u{265D}',
                PieceTypes::Knight => '\u{265E}',
                PieceTypes::Pawn => '\u{265F}',
            },
        }
    }

    /// The place of a piece kind in the Unicode chess symbols: king, queen, rook, bishop,
    /// knight, pawn.
    pub open spec fn unicode_order(t: PieceTypes) -> int {
        match t {
            PieceTypes::King => 0,
            PieceTypes::Queen => 1,
            PieceTypes::Rook => 2,
            PieceTypes::Bishop => 3,
            PieceTypes::Knight => 4,
            PieceTypes::Pawn => 5,
        }
    }

    /// Each piece is drawn with the Unicode chess symbol of its own colour: White's symbols
    /// lie in U+2654..=U+2659 and Black's in U+265A..=U+265F, in the Unicode order of the
    /// kinds; a black piece's symbol is six places after the white piece of the same kind, and
    /// no two pieces share a symbol.
    pub proof fn lemma_glyphs(p: Piece, q: Piece)
        ensures
            p.owner == Players::White ==> 0x2654 <= (p.spec_glyph() as u32) <= 0x2659,
            p.owner == Players::Black ==> 0x265A <= (p.spec_glyph() as u32) <= 0x265F,
            p.owner == Players::White && q.owner == Players::Black && p.piece_type == q.piece_type
                ==> q.spec_glyph() as u32 == p.spec_glyph() as u32 + 6,
            p.spec_glyph() == q.spec_glyph() ==> p == q,
            p.owner == Players::White ==> p.spec_glyph() as u32 == 0x2654 + Piece::unicode_order(
                p.piece_type,
            ),
    {
    }

    /// The Unicode chess symbol of the piece.
    pub fn as_char(self) -> (r: char)
        ensures
            r == self.spec_glyph(),
    {
        match self.owner {
            Players::White => match self.piece_type {
                PieceTypes::King => '\u{2654}',
                PieceTypes::Queen => '\u{2655}',
                PieceTypes::Rook => '\u{2656}',
                PieceTypes::Bishop => '\u{2657}',
                PieceTypes::Knight => '\u{2658}',
                PieceTypes::Pawn => '\u{2659}',
            },
            Players::Black => match self.piece_type {
                PieceTypes::King => '\u{265A}',
                PieceTypes::Queen => '\u{265B}',
                PieceTypes::Rook => '\u{265C}',
                PieceTypes::Bishop => '\u{265D}',
                PieceTypes::Knight => '\u{265E}',
                PieceTypes::Pawn => '\u{265F}',
            },
        }
    }

    /// The letter of the piece kind in algebraic notation (empty for pawns).
    pub open spec fn spec_letter(self) -> Seq<char> {
        match self.piece_type {
            PieceTypes::King => seq!['K'],
            PieceTypes::Queen => seq!['Q'],
            PieceTypes::Rook => seq!['R'],
            PieceTypes::Bishop => seq!['B'],
            PieceTypes::Knight => seq!['N'],
            PieceTypes::Pawn => seq![],
        }
    }

    /// The letter of a piece depends on its kind alone, is empty for a pawn only, and read
    /// back as a FEN letter gives the white piece of that kind.
    pub proof fn lemma_letter_reads_back(self)
        ensures
            (self.spec_letter().len() == 0) == (self.piece_type == PieceTypes::Pawn),
            self.spec_letter() == (Piece { owner: Players::White, ..self }).spec_letter(),
            self.piece_type != PieceTypes::Pawn ==> self.spec_letter().len() == 1
                && Piece::spec_from_char_ascii(self.spec_letter()[0]) == Some(
                Piece { owner: Players::White, ..self },
            ),
    {
    }

    pub fn as_char_ascii(self) -> (r: &'static str)
        ensures
            r@ == self.spec_letter(),
    {
        match self.piece_type {
            PieceTypes::King => {
                proof {
                    reveal_strlit("K");
                }
                "K"
            },
            PieceTypes::Queen => {
                proof {
                    reveal_strlit("Q");
                }
                "Q"
            },
            PieceTypes::Rook => {
                proof {
                    reveal_strlit("R");
                }
                "R"
            },
            PieceTypes::Bishop => {
                proof {
                    reveal_strlit("B");
                }
                "B"
            },
            PieceTypes::Knight => {
                proof {
                    reveal_strlit("N");
                }
                "N"
            },
            PieceTypes::Pawn => {
                proof {
                    reveal_strlit("");
                }
                ""
            },
        }
    }

    /// The piece that a FEN letter stands for: upper case for White, lower case for Black.
    pub open spec fn spec_from_char_ascii(c: char) -> Option<Piece> {
        let owner = if 'a' <= c && c <= 'z' {
            Players::Black
        } else {
            Players::White
        };
        let upper = if 'a' <= c && c <= 'z' {
            ((c as u32) - 32) as char
        } else {
            c
        };
        if upper == 'K' {
            Some(Piece { piece_type: PieceTypes::King, owner })
        } else if upper == 'Q' {
            Some(Piece { piece_type: PieceTypes::Queen, owner })
        } else if upper == 'R' {
            Some(Piece { piece_type: PieceTypes::Rook, owner })
        } else if upper == 'B' {
            Some(Piece { piece_type: PieceTypes::Bishop, owner })
        } else if upper == 'N' {
            Some(Piece { piece_type: PieceTypes::Knight, owner })
        } else if upper == 'P' {
            Some(Piece { piece_type: PieceTypes::Pawn, owner })
        } else {
            None
        }
    }

    pub fn from_char_ascii(piece: char) -> (r: Option<Self>)
        ensures
            r == Piece::spec_from_char_ascii(piece),
    {
        let lower = 'a' <= piece && piece <= 'z';
        let owner = if lower {
            Players::Black
        } else {
            Players::White
        };
        let upper = if lower {
            ((piece as u32) - 32) as u8 as char
        } else {
            piece
        };
        let piece_type = if upper == 'K' {
            PieceTypes::King
        } else if upper == 'Q' {
            PieceTypes::Queen
        } else if upper == 'R' {
            PieceTypes::Rook
        } else if upper == 'B' {
            PieceTypes::Bishop
        } else if upper == 'N' {
            PieceTypes::Knight
        } else if upper == 'P' {
            PieceTypes::Pawn
        } else {
            return None;
        };
        Some(Self { piece_type, owner })
    }
}


/// Appends `m` to the list unless the list is full.
fn add_move(moves: &mut ArrayVec<Move, 256>, m: Move)
    requires
        move_items(*old(moves)).len() <= 256,
    ensures
        move_items(*final(moves)) == capped(move_items(*old(moves)).push(m)),
        move_items(*final(moves)).len() <= 256,
{
    let _ = moves_try_push(moves, m);
    proof {
        if move_items(*old(moves)).len() >= 256 {
            assert(move_items(*old(moves)).push(m).take(256) =~= move_items(*old(moves)));
        }
    }
}

/// Appending two sequences one after the other to a capped list.
proof fn lemma_capped_chain(items: Seq<Move>, a: Seq<Move>, b: Seq<Move>)
    ensures
        capped(capped(items + a) + b) == capped(items + (a + b)),
{
    lemma_capped_concat(items + a, b);
    assert(items + a + b =~= items + (a + b));
}

impl Piece {
    /// Appends the moves of this piece, standing on `pos`, before any check of the own king's
    /// safety; moves that do not fit in the list are dropped.
    pub fn get_moves(self, moves: &mut ArrayVec<Move, 256>, game: &ChessGame, pos: Position)
        requires
            game.wf(),
        ensures
            move_items(*final(moves)) == capped(move_items(*old(moves)) + piece_moves(game@, self, pos)),
    {
        let _ = moves_len(moves);
        match self.piece_type {
            PieceTypes::Pawn => self.get_pawn_moves(moves, game, pos),
            PieceTypes::King => self.get_king_moves(moves, game, pos),
            PieceTypes::Knight => self.get_knight_moves(moves, game, pos),
            PieceTypes::Rook => {
                let dirs: [(i8, i8); 4] = [(0, 1), (0, -1), (1, 0), (-1, 0)];
                proof {
                    assert(dirs@ =~= rook_dirs());
                }
                self.slide(moves, game, pos, &dirs, 4);
            },
            PieceTypes::Bishop => {
                let dirs: [(i8, i8); 4] = [(1, 1), (-1, -1), (1, -1), (-1, 1)];
                proof {
                    assert(dirs@ =~= bishop_dirs());
                }
                self.slide(moves, game, pos, &dirs, 4);
            },
            PieceTypes::Queen => {
                let dirs: [(i8, i8); 8] = [(0, 1), (0, -1), (1, 0), (-1, 0), (1, 1), (-1, -1), (1, -1), (-1, 1)];
                proof {
                    assert(dirs@ =~= queen_dirs());
                }
                self.slide(moves, game, pos, &dirs, 8);
            },
        }
    }

    /// Appends the sliding moves from `start` through `(row, col)` onwards in direction
    /// `(dr, dc)`.
    fn ray(self, moves: &mut ArrayVec<Move, 256>, game: &ChessGame, start: Position, row: i8, col: i8, dr: i8, dc: i8)
        requires
            game.wf(),
            move_items(*old(moves)).len() <= 256,
            -1 <= row <= 8,
            -1 <= col <= 8,
            -1 <= dr <= 1,
            -1 <= dc <= 1,
        ensures
            move_items(*final(moves)) == capped(move_items(*old(moves)) + ray_moves(game@, self, start, row as int, col as int, dr as int, dc as int, 8)),
            move_items(*final(moves)).len() <= 256,
    {
        let ghost items0 = move_items(*moves);
        let ghost g = game@;
        let mut r = row;
        let mut c = col;
        let mut n: u8 = 8;
        let mut stop = false;
        let ghost mut acc: Seq<Move> = seq![];
        proof {
            lemma_capped_short(items0);
            assert(items0 + acc =~= items0);
        }
        while !stop && n > 0 && 0 <= r && r < 8 && 0 <= c && c < 8
            invariant
                game.wf(),
                g == game@,
                -1 <= r <= 8,
                -1 <= c <= 8,
                -1 <= dr <= 1,
                -1 <= dc <= 1,
                n <= 8,
                move_items(*moves) == capped(items0 + acc),
                move_items(*moves).len() <= 256,
                ray_moves(g, self, start, row as int, col as int, dr as int, dc as int, 8) == acc + (
                if stop {
                    seq![]
                } else {
                    ray_moves(g, self, start, r as int, c as int, dr as int, dc as int, n as nat)
                }),
            decreases n,
        {
            let end = Position::new_assert(r, c);
            proof {
                Position::lemma_at(r as int, c as int);
            }
            let ghost rest = ray_moves(g, self, start, r as int, c as int, dr as int, dc as int, n as nat);
            let place = game.get_position(end);
            match place {
                Some(piece) => {
                    if piece.owner != game.current_player {
                        let m = Move::Normal { piece: self, start, end, captured_piece: place };
                        add_move(moves, m);
                        proof {
                            assert(rest =~= seq![m]);
                            lemma_capped_push(items0 + acc, m);
                            assert(items0 + acc.push(m) =~= (items0 + acc).push(m));
                            assert(acc + rest =~= acc.push(m) + seq![]);
                            acc = acc.push(m);
                        }
                    } else {
                        proof {
                            assert(rest =~= seq![]);
                            assert(acc + rest =~= acc + seq![]);
                        }
                    }
                    stop = true;
                },
                None => {
                    let m = Move::Normal { piece: self, start, end, captured_piece: None };
                    add_move(moves, m);
                    proof {
                        lemma_capped_push(items0 + acc, m);
                        assert(items0 + acc.push(m) =~= (items0 + acc).push(m));
                        assert(acc + rest =~= acc.push(m) + ray_moves(g, self, start, r + dr, c + dc, dr as int, dc as int, (n - 1) as nat));
                        acc = acc.push(m);
                    }
                },
            }
            r = r + dr;
            c = c + dc;
            n = n - 1;
        }
        proof {
            assert(acc + (if stop {
                seq![]
            } else {
                ray_moves(g, self, start, r as int, c as int, dr as int, dc as int, n as nat)
            }) =~= acc);
        }
    }

    /// Appends the sliding moves along the first `n` directions.
    fn slide(self, moves: &mut ArrayVec<Move, 256>, game: &ChessGame, pos: Position, dirs: &[(i8, i8)], n: usize)
        requires
            game.wf(),
            move_items(*old(moves)).len() <= 256,
            n <= dirs@.len(),
            forall|i: int| 0 <= i < dirs@.len() ==> -1 <= #[trigger] dirs@[i].0 <= 1 && -1 <= dirs@[i].1 <= 1,
        ensures
            move_items(*final(moves)) == capped(move_items(*old(moves)) + slide_moves(game@, self, pos, dirs@, n as int)),
            move_items(*final(moves)).len() <= 256,
    {
        let ghost items0 = move_items(*moves);
        proof {
            lemma_capped_short(items0);
            assert(items0 + slide_moves(game@, self, pos, dirs@, 0) =~= items0);
        }
        let mut i: usize = 0;
        while i < n
            invariant
                game.wf(),
                i <= n,
                n <= dirs@.len(),
                forall|j: int| 0 <= j < dirs@.len() ==> -1 <= #[trigger] dirs@[j].0 <= 1 && -1 <= dirs@[j].1 <= 1,
                move_items(*moves) == capped(items0 + slide_moves(game@, self, pos, dirs@, i as int)),
                move_items(*moves).len() <= 256,
            decreases n - i,
        {
            let (dr, dc) = dirs[i];
            self.ray(moves, game, pos, pos.row() + dr, pos.col() + dc, dr, dc);
            proof {
                lemma_capped_chain(items0, slide_moves(game@, self, pos, dirs@, i as int),
                    ray_moves(game@, self, pos, pos.spec_row() + dr, pos.spec_col() + dc, dr as int, dc as int, 8));
            }
            i += 1;
        }
    }

    /// Appends the knight's moves.
    fn get_knight_moves(self, moves: &mut ArrayVec<Move, 256>, game: &ChessGame, pos: Position)
        requires
            game.wf(),
            move_items(*old(moves)).len() <= 256,
        ensures
            move_items(*final(moves)) == capped(move_items(*old(moves)) + knight_moves(game@, self, pos, 8)),
            move_items(*final(moves)).len() <= 256,
    {
        let steps: [(i8, i8); 8] = [(1, 2), (2, 1), (-1, -2), (-2, -1), (1, -2), (-2, 1), (-1, 2), (2, -1)];
        proof {
            assert(steps@ =~= knight_steps());
        }
        let ghost items0 = move_items(*moves);
        proof {
            lemma_capped_short(items0);
            assert(items0 + knight_moves(game@, self, pos, 0) =~= items0);
        }
        let mut i: usize = 0;
        while i < 8
            invariant
                game.wf(),
                i <= 8,
                steps@ == knight_steps(),
                move_items(*moves) == capped(items0 + knight_moves(game@, self, pos, i as int)),
                move_items(*moves).len() <= 256,
            decreases 8 - i,
        {
            let (dr, dc) = steps[i];
            let r = pos.row() + dr;
            let c = pos.col() + dc;
            let ghost before = knight_moves(game@, self, pos, i as int);
            if 0 <= r && r < 8 && 0 <= c && c < 8 {
                let end = Position::new_assert(r, c);
                proof {
                    Position::lemma_at(r as int, c as int);
                }
                let place = game.get_position(end);
                let own = match place {
                    Some(piece) => piece.owner == game.current_player,
                    None => false,
                };
                if !own {
                    let m = Move::Normal { piece: self, start: pos, end, captured_piece: place };
                    add_move(moves, m);
                    proof {
                        lemma_capped_push(items0 + before, m);
                        assert(items0 + before.push(m) =~= (items0 + before).push(m));
                        assert(knight_step(game@, self, pos, r as int, c as int) =~= seq![m]);
                        assert(knight_moves(game@, self, pos, i + 1) =~= before.push(m));
                    }
                } else {
                    proof {
                        assert(knight_step(game@, self, pos, r as int, c as int) =~= seq![]);
                        assert(knight_moves(game@, self, pos, i + 1) =~= before);
                    }
                }
            } else {
                proof {
                    assert(knight_moves(game@, self, pos, i + 1) =~= before);
                }
            }
            i += 1;
        }
    }

    /// Appends the pawn's moves to `(row, col)` taking `captured`: the four promotions on the
    /// last row, a plain move elsewhere.
    fn pawn_to_moves(self, moves: &mut ArrayVec<Move, 256>, game: &ChessGame, start: Position, row: i8, col: i8, captured: Option<Piece>)
        requires
            game.wf(),
            move_items(*old(moves)).len() <= 256,
            on_board(row as int, col as int),
        ensures
            move_items(*final(moves)) == capped(move_items(*old(moves)) + pawn_to(game@, self, start, row as int, col as int, captured)),
            move_items(*final(moves)).len() <= 256,
    {
        let ghost items0 = move_items(*moves);
        let end = Position::new_assert(row, col);
        let last_row: i8 = match self.owner {
            Players::White => 7,
            Players::Black => 0,
        };
        if last_row == row {
            let owner = game.current_player;
            let m1 = Move::Promotion { owner, start, end, captured_piece: captured, new_piece: PieceTypes::Queen };
            let m2 = Move::Promotion { owner, start, end, captured_piece: captured, new_piece: PieceTypes::Rook };
            let m3 = Move::Promotion { owner, start, end, captured_piece: captured, new_piece: PieceTypes::Bishop };
            let m4 = Move::Promotion { owner, start, end, captured_piece: captured, new_piece: PieceTypes::Knight };
            add_move(moves, m1);
            add_move(moves, m2);
            add_move(moves, m3);
            add_move(moves, m4);
            proof {
                lemma_capped_short(items0);
                lemma_capped_push(items0, m1);
                lemma_capped_push(items0.push(m1), m2);
                lemma_capped_push(items0.push(m1).push(m2), m3);
                lemma_capped_push(items0.push(m1).push(m2).push(m3), m4);
                assert(items0.push(m1).push(m2).push(m3).push(m4) =~= items0 + promotions(game@.current, start, row as int, col as int, captured));
            }
        } else {
            let m = Move::Normal { piece: self, start, end, captured_piece: captured };
            add_move(moves, m);
            proof {
                assert(items0.push(m) =~= items0 + pawn_to(game@, self, start, row as int, col as int, captured));
            }
        }
    }

    /// Appends the pawn's moves: the double step from its first row, the single step, the two
    /// captures and the capture en passant.
    #[verifier::rlimit(40)]
    fn get_pawn_moves(self, moves: &mut ArrayVec<Move, 256>, game: &ChessGame, pos: Position)
        requires
            game.wf(),
            move_items(*old(moves)).len() <= 256,
        ensures
            move_items(*final(moves)) == capped(move_items(*old(moves)) + pawn_moves(game@, self, pos)),
            move_items(*final(moves)).len() <= 256,
    {
        let ghost items0 = move_items(*moves);
        let ghost g = game@;
        let (first_row, d, en_passant_row): (i8, i8, i8) = match self.owner {
            Players::White => (1, 1, 4),
            Players::Black => (6, -1, 3),
        };
        let r = pos.row();
        let c = pos.col();
        proof {
            lemma_capped_short(items0);
        }
        // The double step from the first row.
        if r == first_row {
            proof {
                Position::lemma_at((r + d) as int, c as int);
                Position::lemma_at((r + 2 * d) as int, c as int);
            }
        }
        if r == first_row && game.get_position(Position::new_assert(r + d, c)).is_none()
            && game.get_position(Position::new_assert(r + 2 * d, c)).is_none() {
            let m = Move::Normal { piece: self, start: pos, end: Position::new_assert(r + 2 * d, c), captured_piece: None };
            add_move(moves, m);
            proof {
                assert(items0.push(m) =~= items0 + pawn_double(g, self, pos));
            }
        } else {
            proof {
                assert(items0 =~= items0 + pawn_double(g, self, pos));
            }
        }
        let ghost a = pawn_double(g, self, pos);
        // The single step.
        if 0 <= r + d && r + d < 8 {
            proof {
                Position::lemma_at((r + d) as int, c as int);
            }
            let ghost before = move_items(*moves);
            if game.get_position(Position::new_assert(r + d, c)).is_none() {
                self.pawn_to_moves(moves, game, pos, r + d, c, None);
                proof {
                    lemma_capped_chain(items0, a, pawn_single(g, self, pos));
                }
            } else {
                proof {
                    assert(a + pawn_single(g, self, pos) =~= a);
                }
            }
        } else {
            proof {
                assert(a + pawn_single(g, self, pos) =~= a);
            }
        }
        let ghost b = a + pawn_single(g, self, pos);
        // The two captures.
        self.pawn_capture_moves(moves, game, pos, 1);
        proof {
            lemma_capped_chain(items0, b, pawn_capture(g, self, pos, 1));
        }
        let ghost b2 = b + pawn_capture(g, self, pos, 1);
        self.pawn_capture_moves(moves, game, pos, -1);
        proof {
            lemma_capped_chain(items0, b2, pawn_capture(g, self, pos, -1));
        }
        let ghost b3 = b2 + pawn_capture(g, self, pos, -1);
        // The capture en passant.
        let e = game.state().en_passant();
        if r == en_passant_row && e < 8 && (e - c == 1 || e - c == -1) {
            let m = Move::EnPassant { owner: game.current_player, start_col: c, end_col: e };
            add_move(moves, m);
            proof {
                lemma_capped_push(items0 + b3, m);
                assert((items0 + b3).push(m) =~= items0 + (b3 + pawn_en_passant(g, self, pos)));
            }
        } else {
            proof {
                assert(b3 + pawn_en_passant(g, self, pos) =~= b3);
            }
        }
        proof {
            assert(b3 + pawn_en_passant(g, self, pos) =~= pawn_moves(g, self, pos));
        }
    }

    /// Appends the pawn's capture towards column offset `dc`.
    fn pawn_capture_moves(self, moves: &mut ArrayVec<Move, 256>, game: &ChessGame, pos: Position, dc: i8)
        requires
            game.wf(),
            move_items(*old(moves)).len() <= 256,
            dc == 1 || dc == -1,
        ensures
            move_items(*final(moves)) == capped(move_items(*old(moves)) + pawn_capture(game@, self, pos, dc as int)),
            move_items(*final(moves)).len() <= 256,
    {
        let ghost items0 = move_items(*moves);
        proof {
            lemma_capped_short(items0);
        }
        let d: i8 = match self.owner {
            Players::White => 1,
            Players::Black => -1,
        };
        let r = pos.row() + d;
        let c = pos.col() + dc;
        if 0 <= r && r < 8 && 0 <= c && c < 8 {
            let end = Position::new_assert(r, c);
            proof {
                Position::lemma_at(r as int, c as int);
            }
            let place = game.get_position(end);
            let enemy = match place {
                Some(piece) => piece.owner != self.owner,
                None => false,
            };
            if enemy {
                self.pawn_to_moves(moves, game, pos, r, c, place);
                return;
            }
        }
        proof {
            assert(items0 + pawn_capture(game@, self, pos, dc as int) =~= items0);
        }
    }

    /// Appends the king's steps and its castling moves.
    fn get_king_moves(self, moves: &mut ArrayVec<Move, 256>, game: &ChessGame, pos: Position)
        requires
            game.wf(),
            move_items(*old(moves)).len() <= 256,
        ensures
            move_items(*final(moves)) == capped(move_items(*old(moves)) + king_moves(game@, self, pos)),
            move_items(*final(moves)).len() <= 256,
    {
        let ghost items0 = move_items(*moves);
        let ghost g = game@;
        let player = game.current_player;
        let other_king = game.get_king_position(player.the_other());
        let steps: [(i8, i8); 8] = [(0, 1), (0, -1), (1, 0), (-1, 0), (1, 1), (1, -1), (-1, 1), (-1, -1)];
        proof {
            assert(steps@ =~= king_steps());
            lemma_capped_short(items0);
            assert(items0 + king_step_moves(g, self, pos, 0) =~= items0);
        }
        let mut i: usize = 0;
        while i < 8
            invariant
                game.wf(),
                g == game@,
                player == g.current,
                other_king == g.king_of(player.spec_the_other()),
                i <= 8,
                steps@ == king_steps(),
                move_items(*moves) == capped(items0 + king_step_moves(g, self, pos, i as int)),
                move_items(*moves).len() <= 256,
            decreases 8 - i,
        {
            let (dr, dc) = steps[i];
            let r = pos.row() + dr;
            let c = pos.col() + dc;
            let ghost before = king_step_moves(g, self, pos, i as int);
            proof {
                assert(king_step_moves(g, self, pos, i + 1) == before + king_step(g, self, pos, r as int, c as int));
            }
            if 0 <= r && r < 8 && 0 <= c && c < 8 {
                let end = Position::new_assert(r, c);
                proof {
                    Position::lemma_at(r as int, c as int);
                }
                let place = game.get_position(end);
                let own = match place {
                    Some(piece) => piece.owner == player,
                    None => false,
                };
                if !own {
                    let near = r - other_king.row() >= -1 && r - other_king.row() <= 1
                        && c - other_king.col() >= -1 && c - other_king.col() <= 1;
                    if !near {
                        let m = Move::Normal { piece: self, start: pos, end, captured_piece: place };
                        add_move(moves, m);
                        proof {
                            lemma_capped_push(items0 + before, m);
                            assert(items0 + before.push(m) =~= (items0 + before).push(m));
                            assert(king_step(g, self, pos, r as int, c as int) =~= seq![m]);
                            assert(before + seq![m] =~= before.push(m));
                        }
                    } else {
                        proof {
                            assert(before + king_step(g, self, pos, r as int, c as int) =~= before);
                        }
                    }
                } else {
                    proof {
                        assert(before + king_step(g, self, pos, r as int, c as int) =~= before);
                    }
                }
            } else {
                proof {
                    assert(before + king_step(g, self, pos, r as int, c as int) =~= before);
                }
            }
            i += 1;
        }
        let ghost steps_done = king_step_moves(g, self, pos, 8);
        let state = game.state();
        let (king_side, queen_side) = match player {
            Players::White => (state.white_king_castling(), state.white_queen_castling()),
            Players::Black => (state.black_king_castling(), state.black_queen_castling()),
        };
        let row: i8 = match player {
            Players::White => 0,
            Players::Black => 7,
        };
        proof {
            Position::lemma_at(row as int, 1);
            Position::lemma_at(row as int, 2);
            Position::lemma_at(row as int, 3);
            Position::lemma_at(row as int, 4);
            Position::lemma_at(row as int, 5);
            Position::lemma_at(row as int, 6);
        }
        let king = Position::new_assert(row, 4);
        if king_side && game.get_position(Position::new_assert(row, 5)).is_none()
            && game.get_position(Position::new_assert(row, 6)).is_none()
            && !game.is_targeted(king, player)
            && !game.is_targeted(Position::new_assert(row, 5), player)
            && !game.is_targeted(Position::new_assert(row, 6), player) {
            let m = Move::CastlingShort { owner: player };
            add_move(moves, m);
            proof {
                lemma_capped_push(items0 + steps_done, m);
                assert((items0 + steps_done).push(m) =~= items0 + (steps_done + short_castling(g)));
            }
        } else {
            proof {
                assert(steps_done + short_castling(g) =~= steps_done);
            }
        }
        let ghost with_short = steps_done + short_castling(g);
        if queen_side && game.get_position(Position::new_assert(row, 1)).is_none()
            && game.get_position(Position::new_assert(row, 2)).is_none()
            && game.get_position(Position::new_assert(row, 3)).is_none()
            && !game.is_targeted(king, player)
            && !game.is_targeted(Position::new_assert(row, 2), player)
            && !game.is_targeted(Position::new_assert(row, 3), player) {
            let m = Move::CastlingLong { owner: player };
            add_move(moves, m);
            proof {
                lemma_capped_push(items0 + with_short, m);
                assert((items0 + with_short).push(m) =~= items0 + (with_short + long_castling(g)));
            }
        } else {
            proof {
                assert(with_short + long_castling(g) =~= with_short);
            }
        }
        proof {
            assert(with_short + long_castling(g) =~= king_moves(g, self, pos));
        }
    }
}
} // verus!
