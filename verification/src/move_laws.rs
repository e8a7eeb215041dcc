use vstd::prelude::*;

use crate::chess_game::{
    en_passant_row, en_passant_target_row, home_row, king, pawn, rook, GameModel, Players,
};
use crate::game_laws::{lemma_at_idx, square_of};
use crate::gamestate::GameState;
use crate::move_struct::{parse_uci, Move};
use crate::movegen::{
    at, capped, checked_moves, filter_moves, pseudo_moves, bishop_dirs, board_moves, empty, king_moves, king_step, king_step_moves, king_steps,
    knight_moves, knight_step, knight_steps, long_castling, normal, pawn_capture, pawn_dir,
    pawn_double, pawn_en_passant, pawn_first_row, pawn_last_row, pawn_moves, pawn_single,
    pawn_to, piece_moves, queen_dirs, ray_moves, rook_dirs, short_castling,
    slide_moves, touching,
};
use crate::piece::{Piece, PieceTypes};
use crate::position::{on_board, Position};

verus! {

// ---------------------------------------------------------------------------------------
// Games that play can reach

/// The king-side castling right of `p`.
pub open spec fn short_right(s: GameState, p: Players) -> bool {
    match p {
        Players::White => s.spec_white_king_castling(),
        Players::Black => s.spec_black_king_castling(),
    }
}

/// The queen-side castling right of `p`.
pub open spec fn long_right(s: GameState, p: Players) -> bool {
    match p {
        Players::White => s.spec_white_queen_castling(),
        Players::Black => s.spec_black_queen_castling(),
    }
}

impl GameModel {
    /// The king of `p` stands where the game records it, and no other king of `p` is on the
    /// board.
    pub open spec fn king_in_place(self, p: Players) -> bool {
        &&& self.piece_at(self.king_of(p)) == Some(king(p))
        &&& forall|i: int|
            0 <= i < 64 && #[trigger] self.board[i] == Some(king(p)) ==> square_of(i)
                == self.king_of(p)
    }

    /// `p` holds a castling right only while its king and the rook of that side stand on
    /// their first squares.
    pub open spec fn castling_in_place(self, p: Players) -> bool {
        let s = self.top_state();
        let r = home_row(p);
        &&& short_right(s, p) ==> self.piece_at(Position::at(r, 4)) == Some(king(p))
            && self.piece_at(Position::at(r, 7)) == Some(rook(p))
        &&& long_right(s, p) ==> self.piece_at(Position::at(r, 4)) == Some(king(p))
            && self.piece_at(Position::at(r, 0)) == Some(rook(p))
    }

    /// An en passant column is open only with the pawn that just moved two squares on it,
    /// and the square it passed empty.
    pub open spec fn en_passant_in_place(self) -> bool {
        let e = self.top_state().spec_en_passant() as int;
        e < 8 ==> {
            &&& self.piece_at(Position::at(en_passant_row(self.current), e)) == Some(
                pawn(self.current.spec_the_other()),
            )
            &&& self.piece_at(Position::at(en_passant_target_row(self.current), e)) is None
        }
    }

    /// The game could have come from play: both kings stand where the game records them,
    /// and the castling rights and the en passant column agree with the board.
    pub open spec fn consistent(self) -> bool {
        &&& self.wf()
        &&& self.king_in_place(Players::White)
        &&& self.king_in_place(Players::Black)
        &&& self.castling_in_place(Players::White)
        &&& self.castling_in_place(Players::Black)
        &&& self.en_passant_in_place()
    }

    /// What the move generator guarantees of each move it makes: the pieces it names stand
    /// where it says, it lands on an empty square or an enemy piece, and the conditions of
    /// castling and en passant hold.
    pub open spec fn well_made(self, m: Move) -> bool {
        let current = self.current;
        match m {
            Move::Normal { piece, start, end, captured_piece } => {
                &&& start.inv()
                &&& end.inv()
                &&& start != end
                &&& piece.owner == current
                &&& self.piece_at(start) == Some(piece)
                &&& self.piece_at(end) == captured_piece
                &&& captured_piece matches Some(c) ==> c.owner != current
                &&& piece.piece_type == PieceTypes::King ==> !touching(
                    end.spec_row() as int,
                    end.spec_col() as int,
                    self.king_of(current.spec_the_other()).spec_row() as int,
                    self.king_of(current.spec_the_other()).spec_col() as int,
                )
                &&& piece.piece_type == PieceTypes::Pawn && captured_piece is None
                    ==> end.spec_col() == start.spec_col()
                &&& double_step(piece, start, end) ==> {
                    &&& end.spec_col() == start.spec_col()
                    &&& start.spec_row() == pawn_first_row(piece.owner)
                    &&& end.spec_row() - start.spec_row() == 2 * pawn_dir(piece.owner)
                    &&& empty(
                        self,
                        start.spec_row() + pawn_dir(piece.owner),
                        start.spec_col() as int,
                    )
                }
            },
            Move::Promotion { owner, new_piece, start, end, captured_piece } => {
                &&& start.inv()
                &&& end.inv()
                &&& start != end
                &&& owner == current
                &&& new_piece != PieceTypes::King
                &&& new_piece != PieceTypes::Pawn
                &&& self.piece_at(start) == Some(pawn(owner))
                &&& self.piece_at(end) == captured_piece
                &&& captured_piece matches Some(c) ==> c.owner != current
            },
            Move::EnPassant { owner, start_col, end_col } => {
                &&& owner == current
                &&& 0 <= start_col < 8
                &&& 0 <= end_col < 8
                &&& (end_col - start_col == 1 || end_col - start_col == -1)
                &&& end_col == self.top_state().spec_en_passant()
                &&& self.piece_at(Position::at(en_passant_row(owner), start_col as int)) == Some(
                    pawn(owner),
                )
            },
            Move::CastlingShort { owner } => {
                &&& owner == current
                &&& short_right(self.top_state(), owner)
                &&& empty(self, home_row(owner), 5)
                &&& empty(self, home_row(owner), 6)
            },
            Move::CastlingLong { owner } => {
                &&& owner == current
                &&& long_right(self.top_state(), owner)
                &&& empty(self, home_row(owner), 1)
                &&& empty(self, home_row(owner), 2)
                &&& empty(self, home_row(owner), 3)
            },
        }
    }
}

/// A pawn move across two rows: the move that opens an en passant column.
pub open spec fn double_step(piece: Piece, start: Position, end: Position) -> bool {
    piece.piece_type == PieceTypes::Pawn && (end.spec_row() - start.spec_row() == 2
        || end.spec_row() - start.spec_row() == -2)
}

/// Every move of `s` is well made in `g`.
pub open spec fn all_made(g: GameModel, s: Seq<Move>) -> bool {
    forall|i: int| 0 <= i < s.len() ==> g.well_made(#[trigger] s[i])
}

proof fn lemma_all_made_concat(g: GameModel, a: Seq<Move>, b: Seq<Move>)
    requires
        all_made(g, a),
        all_made(g, b),
    ensures
        all_made(g, a + b),
{
    assert forall|i: int| 0 <= i < (a + b).len() implies g.well_made(#[trigger] (a + b)[i]) by {
        if i < a.len() {
            assert((a + b)[i] == a[i]);
        } else {
            assert((a + b)[i] == b[i - a.len()]);
        }
    }
}

/// A plain move to `(row, col)`, taking what stands there, is well made.
proof fn lemma_normal_made(g: GameModel, piece: Piece, start: Position, row: int, col: int)
    requires
        g.wf(),
        start.inv(),
        g.piece_at(start) == Some(piece),
        piece.owner == g.current,
        on_board(row, col),
        row != start.spec_row() || col != start.spec_col(),
        at(g, row, col) matches Some(c) ==> c.owner != g.current,
        piece.piece_type == PieceTypes::King ==> !touching(
            row,
            col,
            g.king_of(g.current.spec_the_other()).spec_row() as int,
            g.king_of(g.current.spec_the_other()).spec_col() as int,
        ),
        piece.piece_type == PieceTypes::Pawn && at(g, row, col) is None ==> col == start.spec_col(),
        piece.piece_type == PieceTypes::Pawn && (row - start.spec_row() == 2 || row
            - start.spec_row() == -2) ==> {
            &&& col == start.spec_col()
            &&& start.spec_row() == pawn_first_row(piece.owner)
            &&& row - start.spec_row() == 2 * pawn_dir(piece.owner)
            &&& empty(g, start.spec_row() + pawn_dir(piece.owner), start.spec_col() as int)
        },
    ensures
        g.well_made(normal(piece, start, row, col, at(g, row, col))),
{
    lemma_at_idx(row, col);
    Position::lemma_at(row, col);
    Position::lemma_eq(start, Position::at(row, col));
}

/// The squares `(row, col)` lies beyond `start` in the direction `(dr, dc)`.
pub open spec fn beyond(start: Position, row: int, col: int, dr: int, dc: int) -> bool {
    &&& -1 <= dr <= 1
    &&& -1 <= dc <= 1
    &&& (dr != 0 || dc != 0)
    &&& (dr == 1 ==> row > start.spec_row())
    &&& (dr == -1 ==> row < start.spec_row())
    &&& (dr == 0 ==> row == start.spec_row())
    &&& (dc == 1 ==> col > start.spec_col())
    &&& (dc == -1 ==> col < start.spec_col())
    &&& (dc == 0 ==> col == start.spec_col())
}

proof fn lemma_ray_made(
    g: GameModel,
    piece: Piece,
    start: Position,
    row: int,
    col: int,
    dr: int,
    dc: int,
    n: nat,
)
    requires
        g.wf(),
        start.inv(),
        g.piece_at(start) == Some(piece),
        piece.owner == g.current,
        piece.piece_type != PieceTypes::King,
        piece.piece_type != PieceTypes::Pawn,
        beyond(start, row, col, dr, dc),
    ensures
        all_made(g, ray_moves(g, piece, start, row, col, dr, dc, n)),
    decreases n,
{
    if n != 0 && on_board(row, col) {
        match at(g, row, col) {
            Some(p) => if p.owner != g.current {
                lemma_normal_made(g, piece, start, row, col);
            },
            None => {
                lemma_normal_made(g, piece, start, row, col);
                lemma_ray_made(g, piece, start, row + dr, col + dc, dr, dc, (n - 1) as nat);
                lemma_all_made_concat(
                    g,
                    seq![normal(piece, start, row, col, None)],
                    ray_moves(g, piece, start, row + dr, col + dc, dr, dc, (n - 1) as nat),
                );
            },
        }
    }
}

proof fn lemma_slide_made(g: GameModel, piece: Piece, start: Position, dirs: Seq<(i8, i8)>, n: int)
    requires
        g.wf(),
        start.inv(),
        g.piece_at(start) == Some(piece),
        piece.owner == g.current,
        piece.piece_type != PieceTypes::King,
        piece.piece_type != PieceTypes::Pawn,
        n <= dirs.len(),
        forall|k: int|
            0 <= k < dirs.len() ==> {
                &&& -1 <= (#[trigger] dirs[k]).0 <= 1
                &&& -1 <= dirs[k].1 <= 1
                &&& (dirs[k].0 != 0 || dirs[k].1 != 0)
            },
    ensures
        all_made(g, slide_moves(g, piece, start, dirs, n)),
    decreases n,
{
    if n > 0 {
        lemma_slide_made(g, piece, start, dirs, n - 1);
        let d = dirs[n - 1];
        lemma_ray_made(
            g,
            piece,
            start,
            start.spec_row() + d.0,
            start.spec_col() + d.1,
            d.0 as int,
            d.1 as int,
            8,
        );
        lemma_all_made_concat(
            g,
            slide_moves(g, piece, start, dirs, n - 1),
            ray_moves(
                g,
                piece,
                start,
                start.spec_row() + d.0,
                start.spec_col() + d.1,
                d.0 as int,
                d.1 as int,
                8,
            ),
        );
    }
}

proof fn lemma_knight_made(g: GameModel, piece: Piece, start: Position, n: int)
    requires
        g.wf(),
        start.inv(),
        g.piece_at(start) == Some(piece),
        piece.owner == g.current,
        piece.piece_type == PieceTypes::Knight,
        n <= 8,
    ensures
        all_made(g, knight_moves(g, piece, start, n)),
    decreases n,
{
    if n > 0 {
        lemma_knight_made(g, piece, start, n - 1);
        let d = knight_steps()[n - 1];
        assert(d.0 != 0);
        let (r, c) = (start.spec_row() + d.0, start.spec_col() + d.1);
        if on_board(r, c) && !(at(g, r, c) matches Some(p) && p.owner == g.current) {
            lemma_normal_made(g, piece, start, r, c);
        }
        lemma_all_made_concat(g, knight_moves(g, piece, start, n - 1), knight_step(g, piece, start, r, c));
    }
}

proof fn lemma_king_steps_made(g: GameModel, piece: Piece, start: Position, n: int)
    requires
        piece.piece_type == PieceTypes::King,
        g.wf(),
        start.inv(),
        g.piece_at(start) == Some(piece),
        piece.owner == g.current,
        n <= 8,
    ensures
        all_made(g, king_step_moves(g, piece, start, n)),
    decreases n,
{
    if n > 0 {
        lemma_king_steps_made(g, piece, start, n - 1);
        let d = king_steps()[n - 1];
        assert(d.0 != 0 || d.1 != 0);
        let (r, c) = (start.spec_row() + d.0, start.spec_col() + d.1);
        let other = g.king_of(g.current.spec_the_other());
        if on_board(r, c) && !(at(g, r, c) matches Some(p) && p.owner == g.current) && !touching(
            r,
            c,
            other.spec_row() as int,
            other.spec_col() as int,
        ) {
            lemma_normal_made(g, piece, start, r, c);
        }
        lemma_all_made_concat(g, king_step_moves(g, piece, start, n - 1), king_step(g, piece, start, r, c));
    }
}

proof fn lemma_king_made(g: GameModel, piece: Piece, start: Position)
    requires
        piece.piece_type == PieceTypes::King,
        g.wf(),
        start.inv(),
        g.piece_at(start) == Some(piece),
        piece.owner == g.current,
    ensures
        all_made(g, king_moves(g, piece, start)),
{
    lemma_king_steps_made(g, piece, start, 8);
    lemma_all_made_concat(g, king_step_moves(g, piece, start, 8), short_castling(g));
    lemma_all_made_concat(g, king_step_moves(g, piece, start, 8) + short_castling(g), long_castling(g));
}

proof fn lemma_pawn_to_made(g: GameModel, piece: Piece, start: Position, row: int, col: int)
    requires
        g.wf(),
        start.inv(),
        g.piece_at(start) == Some(piece),
        piece == pawn(g.current),
        on_board(row, col),
        row - start.spec_row() == pawn_dir(piece.owner),
        at(g, row, col) matches Some(c) ==> c.owner != g.current,
        at(g, row, col) is None ==> col == start.spec_col(),
    ensures
        all_made(g, pawn_to(g, piece, start, row, col, at(g, row, col))),
{
    lemma_at_idx(row, col);
    Position::lemma_at(row, col);
    Position::lemma_eq(start, Position::at(row, col));
    if row != pawn_last_row(piece.owner) {
        lemma_normal_made(g, piece, start, row, col);
    }
}

proof fn lemma_pawn_made(g: GameModel, piece: Piece, start: Position)
    requires
        g.wf(),
        start.inv(),
        g.piece_at(start) == Some(piece),
        piece.owner == g.current,
        piece.piece_type == PieceTypes::Pawn,
    ensures
        all_made(g, pawn_moves(g, piece, start)),
{
    let d = pawn_dir(piece.owner);
    let r = start.spec_row() as int;
    let c = start.spec_col() as int;
    Position::lemma_inv(start);
    if r == pawn_first_row(piece.owner) && empty(g, r + d, c) && empty(g, r + 2 * d, c) {
        lemma_normal_made(g, piece, start, r + 2 * d, c);
    }
    if on_board(r + d, c) && empty(g, r + d, c) {
        lemma_pawn_to_made(g, piece, start, r + d, c);
    }
    if on_board(r + d, c + 1) && (match at(g, r + d, c + 1) {
        Some(p) => p.owner != piece.owner,
        None => false,
    }) {
        lemma_pawn_to_made(g, piece, start, r + d, c + 1);
    }
    if on_board(r + d, c - 1) && (match at(g, r + d, c - 1) {
        Some(p) => p.owner != piece.owner,
        None => false,
    }) {
        lemma_pawn_to_made(g, piece, start, r + d, c - 1);
    }
    let e = g.top_state().spec_en_passant() as int;
    GameState::lemma_en_passant_range(g.top_state());
    if start.spec_row() == en_passant_row(piece.owner) && e < 8 && (e - c == 1 || e - c == -1) {
        Position::lemma_at(en_passant_row(piece.owner), c);
        Position::lemma_eq(start, Position::at(en_passant_row(piece.owner), c));
    }
    lemma_all_made_concat(g, pawn_double(g, piece, start), pawn_single(g, piece, start));
    lemma_all_made_concat(
        g,
        pawn_double(g, piece, start) + pawn_single(g, piece, start),
        pawn_capture(g, piece, start, 1),
    );
    lemma_all_made_concat(
        g,
        pawn_double(g, piece, start) + pawn_single(g, piece, start) + pawn_capture(g, piece, start, 1),
        pawn_capture(g, piece, start, -1),
    );
    lemma_all_made_concat(
        g,
        pawn_double(g, piece, start) + pawn_single(g, piece, start) + pawn_capture(g, piece, start, 1)
            + pawn_capture(g, piece, start, -1),
        pawn_en_passant(g, piece, start),
    );
}

proof fn lemma_piece_made(g: GameModel, piece: Piece, start: Position)
    requires
        g.wf(),
        start.inv(),
        g.piece_at(start) == Some(piece),
        piece.owner == g.current,
    ensures
        all_made(g, piece_moves(g, piece, start)),
{
    assert(rook_dirs()[0] == (0i8, 1i8) && rook_dirs()[1] == (0i8, -1i8) && rook_dirs()[2] == (
    1i8, 0i8) && rook_dirs()[3] == (-1i8, 0i8));
    assert(bishop_dirs()[0] == (1i8, 1i8) && bishop_dirs()[1] == (-1i8, -1i8) && bishop_dirs()[2]
        == (1i8, -1i8) && bishop_dirs()[3] == (-1i8, 1i8));
    match piece.piece_type {
        PieceTypes::Pawn => lemma_pawn_made(g, piece, start),
        PieceTypes::King => lemma_king_made(g, piece, start),
        PieceTypes::Knight => lemma_knight_made(g, piece, start, 8),
        PieceTypes::Rook => lemma_slide_made(g, piece, start, rook_dirs(), 4),
        PieceTypes::Bishop => lemma_slide_made(g, piece, start, bishop_dirs(), 4),
        PieceTypes::Queen => {
            assert forall|k: int| 0 <= k < queen_dirs().len() implies {
                &&& -1 <= (#[trigger] queen_dirs()[k]).0 <= 1
                &&& -1 <= queen_dirs()[k].1 <= 1
                &&& (queen_dirs()[k].0 != 0 || queen_dirs()[k].1 != 0)
            } by {
                if k < 4 {
                    assert(queen_dirs()[k] == rook_dirs()[k]);
                } else {
                    assert(queen_dirs()[k] == bishop_dirs()[k - 4]);
                }
            }
            lemma_slide_made(g, piece, start, queen_dirs(), 8)
        },
    }
}

/// Every move that the generator makes is well made.
pub proof fn lemma_board_made(g: GameModel, n: int)
    requires
        g.wf(),
        n <= 64,
    ensures
        all_made(g, board_moves(g, n)),
    decreases n,
{
    if n > 0 {
        lemma_board_made(g, n - 1);
        let i = n - 1;
        let r = i / 8;
        let c = i % 8;
        assert(0 <= r < 8 && 0 <= c < 8 && r * 8 + c == i) by (nonlinear_arith)
            requires
                0 <= i < 64,
                r == i / 8,
                c == i % 8,
        ;
        lemma_at_idx(r, c);
        match g.board[i] {
            Some(p) => if p.owner == g.current {
                lemma_piece_made(g, p, Position::at(r, c));
                lemma_all_made_concat(g, board_moves(g, n - 1), piece_moves(g, p, Position::at(r, c)));
            } else {
                lemma_all_made_concat(g, board_moves(g, n - 1), seq![]);
            },
            None => lemma_all_made_concat(g, board_moves(g, n - 1), seq![]),
        }
    }
}

/// Every move of the side to move, before the king-safety check, is well made; so is every
/// move of the capped list.
pub proof fn lemma_pseudo_made(g: GameModel)
    requires
        g.wf(),
    ensures
        all_made(g, pseudo_moves(g)),
        all_made(g, capped(pseudo_moves(g))),
{
    lemma_board_made(g, 64);
    let s = pseudo_moves(g);
    if s.len() > 256 {
        assert forall|i: int| 0 <= i < capped(s).len() implies g.well_made(#[trigger] capped(s)[i]) by {
            assert(capped(s)[i] == s[i]);
        }
    }
}

proof fn lemma_king_square(g: GameModel, p: Players, sq: Position)
    requires
        g.wf(),
        g.king_in_place(p),
        sq.inv(),
        g.piece_at(sq) == Some(king(p)),
    ensures
        g.king_of(p) == sq,
{
    crate::game_laws::lemma_square_of(sq);
    Position::lemma_idx(sq, sq);
}

/// In a game that play can reach, each well-made move can be taken back: the pieces it
/// names stand where it says, and the king position of the side to move follows its king.
pub proof fn lemma_made_reversible(g: GameModel, m: Move)
    requires
        g.consistent(),
        g.well_made(m),
    ensures
        g.reversible(m),
{
    let cur = g.current;
    match m {
        Move::Normal { piece, start, .. } => {
            if piece.piece_type == PieceTypes::King {
                assert(piece == king(cur));
                lemma_king_square(g, cur, start);
            }
        },
        Move::Promotion { .. } => {},
        Move::EnPassant { owner, start_col, end_col } => {},
        Move::CastlingShort { owner } => {
            let r = home_row(owner);
            lemma_at_idx(r, 4);
            lemma_at_idx(r, 5);
            lemma_at_idx(r, 6);
            lemma_at_idx(r, 7);
            lemma_king_square(g, owner, Position::at(r, 4));
        },
        Move::CastlingLong { owner } => {
            let r = home_row(owner);
            lemma_at_idx(r, 0);
            lemma_at_idx(r, 1);
            lemma_at_idx(r, 2);
            lemma_at_idx(r, 3);
            lemma_at_idx(r, 4);
            lemma_king_square(g, owner, Position::at(r, 4));
        },
    }
}

/// Playing a move that the game generates and taking it back restores the game exactly,
/// in a game that play can reach where the scores of the squares the move changes agree
/// with the tables.
pub proof fn lemma_generated_move_undone(g: GameModel, m: Move)
    requires
        g.consistent(),
        g.scores_agree_for(m),
        g.states.len() < 512,
        pseudo_moves(g).contains(m),
    ensures
        g.pushed(m).popped(m) == g,
{
    lemma_pseudo_made(g);
    crate::movegen::lemma_pseudo_wf(g);
    let i = choose|i: int| 0 <= i < pseudo_moves(g).len() && pseudo_moves(g)[i] == m;
    assert(g.well_made(pseudo_moves(g)[i]));
    assert(pseudo_moves(g)[i].wf());
    lemma_made_reversible(g, m);
    crate::game_laws::lemma_pop_undoes_push(g, m);
}

proof fn lemma_filter_restores(
    g: GameModel,
    ms: Seq<Move>,
    n: int,
    player: Players,
    king: Position,
    in_check: bool,
)
    requires
        g.consistent(),
        g.scores_consistent(),
        g.states.len() < 512,
        all_made(g, ms),
        crate::movegen::all_wf(ms),
        n <= ms.len(),
    ensures
        filter_moves(g, ms, n, player, king, in_check).1 == g,
    decreases n,
{
    if n > 0 {
        lemma_filter_restores(g, ms, n - 1, player, king, in_check);
        let m = ms[n - 1];
        assert(g.well_made(m));
        assert(m.wf());
        lemma_made_reversible(g, m);
        crate::game_laws::lemma_pop_undoes_push(g, m);
    }
}

/// The king-safety check of `get_moves` leaves a game that play can reach exactly as it
/// was, when its square scores agree with its tables.
pub proof fn lemma_checked_moves_restore(g: GameModel)
    requires
        g.consistent(),
        g.scores_consistent(),
        g.states.len() < 512,
    ensures
        checked_moves(g).1 == g,
{
    lemma_pseudo_made(g);
    crate::movegen::lemma_pseudo_wf(g);
    let ms = capped(pseudo_moves(g));
    let king = g.king_of(g.current);
    lemma_filter_restores(g, ms, ms.len() as int, g.current, king, crate::movegen::attacked(g, king, g.current));
}

// ---------------------------------------------------------------------------------------
// What a move changes

/// What square `q` holds after `m` is played in `g`.
pub open spec fn square_after(g: GameModel, m: Move, q: Position) -> Option<Piece> {
    match m {
        Move::Normal { piece, start, end, .. } => if q == end {
            Some(piece)
        } else if q == start {
            None
        } else {
            g.piece_at(q)
        },
        Move::Promotion { owner, new_piece, start, end, .. } => if q == end {
            Some(Piece { piece_type: new_piece, owner })
        } else if q == start {
            None
        } else {
            g.piece_at(q)
        },
        Move::EnPassant { owner, start_col, end_col } => if q == Position::at(
            en_passant_target_row(owner),
            end_col as int,
        ) {
            Some(pawn(owner))
        } else if q == Position::at(en_passant_row(owner), start_col as int) || q == Position::at(
            en_passant_row(owner),
            end_col as int,
        ) {
            None
        } else {
            g.piece_at(q)
        },
        Move::CastlingShort { owner } => {
            let r = home_row(owner);
            if q == Position::at(r, 6) {
                Some(king(owner))
            } else if q == Position::at(r, 5) {
                Some(rook(owner))
            } else if q == Position::at(r, 4) || q == Position::at(r, 7) {
                None
            } else {
                g.piece_at(q)
            }
        },
        Move::CastlingLong { owner } => {
            let r = home_row(owner);
            if q == Position::at(r, 2) {
                Some(king(owner))
            } else if q == Position::at(r, 3) {
                Some(rook(owner))
            } else if q == Position::at(r, 4) || q == Position::at(r, 0) {
                None
            } else {
                g.piece_at(q)
            }
        },
    }
}

/// Where the king of `p` is recorded after `m` is played in `g`.
pub open spec fn king_after(g: GameModel, m: Move, p: Players) -> Position {
    if p != g.current {
        g.king_of(p)
    } else {
        match m {
            Move::Normal { piece, end, .. } => if piece.piece_type == PieceTypes::King {
                end
            } else {
                g.king_of(p)
            },
            Move::CastlingShort { owner } => Position::at(home_row(owner), 6),
            Move::CastlingLong { owner } => Position::at(home_row(owner), 2),
            _ => g.king_of(p),
        }
    }
}

pub proof fn lemma_pushed_parts(g: GameModel, m: Move)
    requires
        g.wf(),
        m.wf(),
        g.states.len() < 512,
    ensures
        g.pushed(m).wf(),
        g.pushed(m).current == g.current.spec_the_other(),
        g.pushed(m).top_state() == crate::chess_game::next_state(g.top_state(), m, g.current),
        g.pushed(m).tables == g.tables,
        forall|p: Players| #[trigger] g.pushed(m).king_of(p) == king_after(g, m, p),
        forall|q: Position| q.inv() ==> #[trigger] g.pushed(m).piece_at(q) == square_after(g, m, q),
        g.scores_consistent() ==> g.pushed(m).scores_consistent(),
{
    reveal(GameModel::pushed);
    reveal(GameModel::forward_board);
    crate::game_laws::lemma_pushed_wf(g, m);
    crate::game_laws::lemma_forward_wf(g, m);
    crate::game_laws::lemma_move_squares(m);
    let gp = g.pushed(m);
    assert forall|p: Players| #[trigger] gp.king_of(p) == king_after(g, m, p) by {
    }
    assert forall|q: Position| q.inv() implies #[trigger] gp.piece_at(q) == square_after(g, m, q) by {
        match m {
            Move::Normal { start, end, .. } => {
                Position::lemma_idx(q, start);
                Position::lemma_idx(q, end);
            },
            Move::Promotion { start, end, .. } => {
                Position::lemma_idx(q, start);
                Position::lemma_idx(q, end);
            },
            Move::EnPassant { owner, start_col, end_col } => {
                crate::game_laws::lemma_en_passant_squares(owner, start_col as int, end_col as int);
                Position::lemma_idx(q, Position::at(en_passant_target_row(owner), end_col as int));
                Position::lemma_idx(q, Position::at(en_passant_row(owner), start_col as int));
                Position::lemma_idx(q, Position::at(en_passant_row(owner), end_col as int));
            },
            Move::CastlingShort { owner } => {
                crate::game_laws::lemma_home_squares(owner);
                let r = home_row(owner);
                Position::lemma_idx(q, Position::at(r, 4));
                Position::lemma_idx(q, Position::at(r, 5));
                Position::lemma_idx(q, Position::at(r, 6));
                Position::lemma_idx(q, Position::at(r, 7));
            },
            Move::CastlingLong { owner } => {
                crate::game_laws::lemma_home_squares(owner);
                let r = home_row(owner);
                Position::lemma_idx(q, Position::at(r, 0));
                Position::lemma_idx(q, Position::at(r, 2));
                Position::lemma_idx(q, Position::at(r, 3));
                Position::lemma_idx(q, Position::at(r, 4));
            },
        }
    }
}

// ---------------------------------------------------------------------------------------
// Castling rights only ever go

/// `a` holds no castling right that `b` does not.
pub open spec fn rights_within(a: GameState, b: GameState) -> bool {
    &&& a.spec_white_king_castling() ==> b.spec_white_king_castling()
    &&& a.spec_white_queen_castling() ==> b.spec_white_queen_castling()
    &&& a.spec_black_king_castling() ==> b.spec_black_king_castling()
    &&& a.spec_black_queen_castling() ==> b.spec_black_queen_castling()
}

proof fn lemma_within_trans(a: GameState, b: GameState, c: GameState)
    requires
        rights_within(a, b),
        rights_within(b, c),
    ensures
        rights_within(a, c),
{
}

proof fn lemma_without_right(s: GameState, n: u8)
    requires
        4 <= n <= 7,
    ensures
        rights_within(s.without_right(n), s),
        s.without_right(n).spec_en_passant() == s.spec_en_passant(),
        n == 4 ==> !s.without_right(n).spec_white_king_castling(),
        n == 5 ==> !s.without_right(n).spec_white_queen_castling(),
        n == 6 ==> !s.without_right(n).spec_black_king_castling(),
        n == 7 ==> !s.without_right(n).spec_black_queen_castling(),
{
    GameState::lemma_rights(s, n);
    let t = s.without_right(n);
    assert(crate::gamestate::bit(t.bits(), 4u8) == (4u8 != n && crate::gamestate::bit(s.bits(), 4u8)));
    assert(crate::gamestate::bit(t.bits(), 5u8) == (5u8 != n && crate::gamestate::bit(s.bits(), 5u8)));
    assert(crate::gamestate::bit(t.bits(), 6u8) == (6u8 != n && crate::gamestate::bit(s.bits(), 6u8)));
    assert(crate::gamestate::bit(t.bits(), 7u8) == (7u8 != n && crate::gamestate::bit(s.bits(), 7u8)));
}

proof fn lemma_with_ep(s: GameState, v: i8)
    requires
        0 <= v < 16,
    ensures
        rights_within(s.with_en_passant(v), s),
        rights_within(s, s.with_en_passant(v)),
        s.with_en_passant(v).spec_en_passant() == v,
{
    GameState::lemma_with_en_passant(s, v);
}

proof fn lemma_clear_castling(s: GameState, p: Players)
    ensures
        rights_within(crate::chess_game::without_castling(s, p), s),
        crate::chess_game::without_castling(s, p).spec_en_passant() == s.spec_en_passant(),
        !short_right(crate::chess_game::without_castling(s, p), p),
        !long_right(crate::chess_game::without_castling(s, p), p),
{
    match p {
        Players::White => {
            lemma_without_right(s, 4);
            lemma_without_right(s.without_right(4), 5);
            GameState::lemma_rights(s.without_right(4), 5);
        },
        Players::Black => {
            lemma_without_right(s, 6);
            lemma_without_right(s.without_right(6), 7);
            GameState::lemma_rights(s.without_right(6), 7);
        },
    }
    let t = crate::chess_game::without_castling(s, p);
    match p {
        Players::White => {
            let u = s.without_right(4);
            assert(crate::gamestate::bit(t.bits(), 4u8) == (4u8 != 5u8 && crate::gamestate::bit(
                u.bits(),
                4u8,
            )));
        },
        Players::Black => {
            let u = s.without_right(6);
            assert(crate::gamestate::bit(t.bits(), 6u8) == (6u8 != 7u8 && crate::gamestate::bit(
                u.bits(),
                6u8,
            )));
        },
    }
}

proof fn lemma_corner(square: Position, r: int, c: int)
    requires
        square.inv(),
        on_board(r, c),
    ensures
        crate::chess_game::is_square(square, r, c) <==> square == Position::at(r, c),
{
    Position::lemma_at(r, c);
    Position::lemma_eq(square, Position::at(r, c));
}

proof fn lemma_rook_left(s: GameState, square: Position)
    requires
        square.inv(),
    ensures
        rights_within(crate::chess_game::after_rook_left(s, square), s),
        crate::chess_game::after_rook_left(s, square).spec_en_passant() == s.spec_en_passant(),
        forall|p: Players|
            square == Position::at(home_row(p), 7) ==> !short_right(
                #[trigger] crate::chess_game::after_rook_left(s, square),
                p,
            ),
        forall|p: Players|
            square == Position::at(home_row(p), 0) ==> !long_right(
                #[trigger] crate::chess_game::after_rook_left(s, square),
                p,
            ),
{
    lemma_corner(square, 0, 0);
    lemma_corner(square, 0, 7);
    lemma_corner(square, 7, 0);
    lemma_corner(square, 7, 7);
    lemma_without_right(s, 4);
    lemma_without_right(s, 5);
    lemma_without_right(s, 6);
    lemma_without_right(s, 7);
}

proof fn lemma_rook_taken(s: GameState, captured: Option<Piece>, square: Position)
    requires
        square.inv(),
    ensures
        rights_within(crate::chess_game::after_capture(s, captured, square), s),
        crate::chess_game::after_capture(s, captured, square).spec_en_passant() == s.spec_en_passant(),
        forall|p: Players|
            captured == Some(rook(p)) && square == Position::at(home_row(p), 7) ==> !short_right(
                #[trigger] crate::chess_game::after_capture(s, captured, square),
                p,
            ),
        forall|p: Players|
            captured == Some(rook(p)) && square == Position::at(home_row(p), 0) ==> !long_right(
                #[trigger] crate::chess_game::after_capture(s, captured, square),
                p,
            ),
{
    lemma_corner(square, 0, 0);
    lemma_corner(square, 0, 7);
    lemma_corner(square, 7, 0);
    lemma_corner(square, 7, 7);
    lemma_without_right(s, 4);
    lemma_without_right(s, 5);
    lemma_without_right(s, 6);
    lemma_without_right(s, 7);
}

/// How the state after a move relates to the one before: no castling right appears, the
/// rights of a side whose king moves or castles go, the right tied to a corner goes when
/// its rook leaves it or is taken there, and the en passant column is open only after a
/// pawn's double step, on that pawn's column.
pub proof fn lemma_next_state(s: GameState, m: Move, cur: Players)
    requires
        m.wf(),
    ensures
        rights_within(crate::chess_game::next_state(s, m, cur), s),
        crate::chess_game::next_state(s, m, cur).spec_en_passant() == match m {
            Move::Normal { piece, start, end, .. } => if double_step(piece, start, end) {
                start.spec_col()
            } else {
                8i8
            },
            _ => 8i8,
        },
        (m matches Move::Normal { piece, .. } && piece.piece_type == PieceTypes::King) || m is CastlingShort
            || m is CastlingLong ==> !short_right(crate::chess_game::next_state(s, m, cur), cur)
            && !long_right(crate::chess_game::next_state(s, m, cur), cur),
        forall|p: Players|
            (m matches Move::Normal { piece, start, .. } && piece.piece_type == PieceTypes::Rook
                && start == Position::at(home_row(p), 7)) ==> !short_right(
                crate::chess_game::next_state(s, m, cur),
                p,
            ),
        forall|p: Players|
            (m matches Move::Normal { piece, start, .. } && piece.piece_type == PieceTypes::Rook
                && start == Position::at(home_row(p), 0)) ==> !long_right(
                crate::chess_game::next_state(s, m, cur),
                p,
            ),
        forall|p: Players|
            (m matches Move::Normal { captured_piece, end, .. } && captured_piece == Some(rook(p))
                && end == Position::at(home_row(p), 7)) ==> !short_right(
                crate::chess_game::next_state(s, m, cur),
                p,
            ),
        forall|p: Players|
            (m matches Move::Normal { captured_piece, end, .. } && captured_piece == Some(rook(p))
                && end == Position::at(home_row(p), 0)) ==> !long_right(
                crate::chess_game::next_state(s, m, cur),
                p,
            ),
        forall|p: Players|
            (m matches Move::Promotion { captured_piece, end, .. } && captured_piece == Some(rook(p))
                && end == Position::at(home_row(p), 7)) ==> !short_right(
                crate::chess_game::next_state(s, m, cur),
                p,
            ),
        forall|p: Players|
            (m matches Move::Promotion { captured_piece, end, .. } && captured_piece == Some(rook(p))
                && end == Position::at(home_row(p), 0)) ==> !long_right(
                crate::chess_game::next_state(s, m, cur),
                p,
            ),
{
    let s0 = s.with_en_passant(8);
    lemma_with_ep(s, 8);
    match m {
        Move::Normal { piece, start, end, captured_piece } => {
            let s1 = if piece.piece_type == PieceTypes::King {
                crate::chess_game::without_castling(s0, cur)
            } else if piece.piece_type == PieceTypes::Rook {
                crate::chess_game::after_rook_left(s0, start)
            } else {
                s0
            };
            lemma_clear_castling(s0, cur);
            lemma_rook_left(s0, start);
            let s2 = crate::chess_game::after_capture(s1, captured_piece, end);
            lemma_rook_taken(s1, captured_piece, end);
            lemma_within_trans(s1, s0, s);
            lemma_within_trans(s2, s1, s);
            Position::lemma_inv(start);
            if double_step(piece, start, end) {
                lemma_with_ep(s2, start.spec_col());
                lemma_within_trans(s2.with_en_passant(start.spec_col()), s2, s);
            }
            let n = crate::chess_game::next_state(s, m, cur);
            assert(rights_within(n, s2));
            assert forall|p: Players|
                piece.piece_type == PieceTypes::Rook && start == Position::at(home_row(p), 7)
                    implies !short_right(n, p) by {
                assert(!short_right(s1, p));
            }
            assert forall|p: Players|
                piece.piece_type == PieceTypes::Rook && start == Position::at(home_row(p), 0)
                    implies !long_right(n, p) by {
                assert(!long_right(s1, p));
            }
            assert forall|p: Players|
                captured_piece == Some(rook(p)) && end == Position::at(home_row(p), 7)
                    implies !short_right(n, p) by {
                assert(!short_right(s2, p));
            }
            assert forall|p: Players|
                captured_piece == Some(rook(p)) && end == Position::at(home_row(p), 0)
                    implies !long_right(n, p) by {
                assert(!long_right(s2, p));
            }
        },
        Move::Promotion { end, captured_piece, .. } => {
            lemma_rook_taken(s0, captured_piece, end);
            lemma_within_trans(crate::chess_game::after_capture(s0, captured_piece, end), s0, s);
        },
        Move::EnPassant { .. } => {},
        Move::CastlingLong { .. } => {
            lemma_clear_castling(s0, cur);
            lemma_within_trans(crate::chess_game::without_castling(s0, cur), s0, s);
        },
        Move::CastlingShort { .. } => {
            lemma_clear_castling(s0, cur);
            lemma_within_trans(crate::chess_game::without_castling(s0, cur), s0, s);
        },
    }
}

// ---------------------------------------------------------------------------------------
// Playing a move keeps the game one that play can reach

/// The move takes a king.
pub open spec fn takes_king(m: Move) -> bool {
    match m {
        Move::Normal { captured_piece, .. } => captured_piece matches Some(c) && c.piece_type
            == PieceTypes::King,
        Move::Promotion { captured_piece, .. } => captured_piece matches Some(c) && c.piece_type
            == PieceTypes::King,
        _ => false,
    }
}

proof fn lemma_square_of_idx(i: int)
    requires
        0 <= i < 64,
    ensures
        square_of(i).inv(),
        square_of(i).idx() == i,
{
    let r = i / 8;
    let c = i % 8;
    assert(0 <= r < 8 && 0 <= c < 8 && r * 8 + c == i) by (nonlinear_arith)
        requires
            0 <= i < 64,
            r == i / 8,
            c == i % 8,
    ;
    lemma_at_idx(r, c);
}

/// The squares of a home row: on the board, and told apart by their columns.
proof fn lemma_row_squares(owner: Players)
    ensures
        forall|c: int| 0 <= c < 8 ==> (#[trigger] Position::at(home_row(owner), c)).inv(),
        forall|c: int|
            0 <= c < 8 ==> (#[trigger] Position::at(home_row(owner), c)).spec_col() == c
                && Position::at(home_row(owner), c).spec_row() == home_row(owner),
{
    assert forall|c: int| 0 <= c < 8 implies (#[trigger] Position::at(home_row(owner), c)).inv()
        && Position::at(home_row(owner), c).spec_col() == c && Position::at(home_row(owner), c).spec_row()
        == home_row(owner) by {
        Position::lemma_at(home_row(owner), c);
    }
}

/// The empty squares that a well-made castling crosses hold nothing.
proof fn lemma_castling_squares(g: GameModel, owner: Players)
    requires
        g.wf(),
    ensures
        forall|c: int|
            0 <= c < 8 ==> g.piece_at(#[trigger] Position::at(home_row(owner), c)) == at(
                g,
                home_row(owner),
                c,
            ),
{
    assert forall|c: int| 0 <= c < 8 implies g.piece_at(#[trigger] Position::at(home_row(owner), c))
        == at(g, home_row(owner), c) by {
        lemma_at_idx(home_row(owner), c);
    }
}

proof fn lemma_kings_kept(g: GameModel, m: Move, p: Players)
    requires
        g.consistent(),
        g.well_made(m),
        m.wf(),
        g.states.len() < 512,
        !takes_king(m),
    ensures
        g.pushed(m).king_in_place(p),
{
    lemma_pushed_parts(g, m);
    let gp = g.pushed(m);
    let cur = g.current;
    let k = g.king_of(p);
    let k2 = king_after(g, m, p);
    crate::game_laws::lemma_move_squares(m);
    match m {
        Move::Normal { piece, start, .. } => {
            if piece.piece_type == PieceTypes::King {
                assert(piece == king(cur));
                lemma_king_square(g, cur, start);
            }
        },
        Move::EnPassant { owner, start_col, end_col } => {
            crate::game_laws::lemma_en_passant_squares(owner, start_col as int, end_col as int);
        },
        Move::CastlingShort { owner } => {
            lemma_row_squares(owner);
            lemma_castling_squares(g, owner);
            lemma_king_square(g, owner, Position::at(home_row(owner), 4));
        },
        Move::CastlingLong { owner } => {
            lemma_row_squares(owner);
            lemma_castling_squares(g, owner);
            lemma_king_square(g, owner, Position::at(home_row(owner), 4));
        },
        _ => {},
    }
    assert(k.inv());
    assert(gp.piece_at(k2) == Some(king(p)));
    assert forall|i: int| 0 <= i < 64 && #[trigger] gp.board[i] == Some(king(p)) implies square_of(i)
        == gp.king_of(p) by {
        lemma_square_of_idx(i);
        let q = square_of(i);
        assert(gp.piece_at(q) == square_after(g, m, q));
        if g.piece_at(q) == Some(king(p)) {
            lemma_king_square(g, p, q);
        }
    }
}

proof fn lemma_castling_kept(g: GameModel, m: Move, p: Players)
    requires
        g.consistent(),
        g.well_made(m),
        m.wf(),
        g.states.len() < 512,
        !takes_king(m),
    ensures
        g.pushed(m).castling_in_place(p),
{
    lemma_pushed_parts(g, m);
    lemma_next_state(g.top_state(), m, g.current);
    let gp = g.pushed(m);
    let cur = g.current;
    crate::game_laws::lemma_move_squares(m);
    lemma_row_squares(p);
    lemma_row_squares(cur);
    let rp = home_row(p);
    let k = Position::at(rp, 4);
    let short_rook = Position::at(rp, 7);
    let long_rook = Position::at(rp, 0);
    assert(gp.piece_at(k) == square_after(g, m, k));
    assert(gp.piece_at(short_rook) == square_after(g, m, short_rook));
    assert(gp.piece_at(long_rook) == square_after(g, m, long_rook));
    match m {
        Move::EnPassant { owner, start_col, end_col } => {
            crate::game_laws::lemma_en_passant_squares(owner, start_col as int, end_col as int);
        },
        Move::CastlingShort { owner } => {
            lemma_castling_squares(g, owner);
        },
        Move::CastlingLong { owner } => {
            lemma_castling_squares(g, owner);
        },
        _ => {},
    }
}

proof fn lemma_en_passant_kept(g: GameModel, m: Move)
    requires
        g.consistent(),
        g.well_made(m),
        m.wf(),
        g.states.len() < 512,
    ensures
        g.pushed(m).en_passant_in_place(),
{
    lemma_pushed_parts(g, m);
    lemma_next_state(g.top_state(), m, g.current);
    let gp = g.pushed(m);
    match m {
        Move::Normal { piece, start, end, .. } => {
            if double_step(piece, start, end) {
                let col = start.spec_col() as int;
                let other = g.current.spec_the_other();
                Position::lemma_inv(start);
                Position::lemma_inv(end);
                let a = Position::at(en_passant_row(other), col);
                let b = Position::at(en_passant_target_row(other), col);
                lemma_at_idx(en_passant_row(other), col);
                lemma_at_idx(en_passant_target_row(other), col);
                Position::lemma_at(en_passant_row(other), col);
                Position::lemma_at(en_passant_target_row(other), col);
                Position::lemma_eq(a, end);
                Position::lemma_eq(b, end);
                Position::lemma_eq(b, start);
                assert(gp.piece_at(a) == square_after(g, m, a));
                assert(gp.piece_at(b) == square_after(g, m, b));
                assert(gp.top_state().spec_en_passant() as int == col);
                assert(gp.current == other);
                assert(a == end);
                assert(b != end && b != start);
                assert(gp.piece_at(a) == Some(pawn(g.current)));
                assert(gp.piece_at(b) is None);
            }
        },
        _ => {},
    }
}

/// Playing a well-made move that takes no king keeps the game one that play can reach, and
/// keeps its square scores in agreement with its tables.
pub proof fn lemma_move_keeps_consistent(g: GameModel, m: Move)
    requires
        g.consistent(),
        g.well_made(m),
        m.wf(),
        g.states.len() < 512,
        !takes_king(m),
    ensures
        g.pushed(m).consistent(),
        g.scores_consistent() ==> g.pushed(m).scores_consistent(),
{
    lemma_pushed_parts(g, m);
    lemma_kings_kept(g, m, Players::White);
    lemma_kings_kept(g, m, Players::Black);
    lemma_castling_kept(g, m, Players::White);
    lemma_castling_kept(g, m, Players::Black);
    lemma_en_passant_kept(g, m);
}

// ---------------------------------------------------------------------------------------
// Counting moves leaves the game as it was

proof fn lemma_filter_kept_made(
    g: GameModel,
    h: GameModel,
    ms: Seq<Move>,
    n: int,
    player: Players,
    king: Position,
    in_check: bool,
)
    requires
        all_made(g, ms),
        0 <= n <= ms.len(),
    ensures
        all_made(g, filter_moves(h, ms, n, player, king, in_check).0),
    decreases n,
{
    if n > 0 {
        lemma_filter_kept_made(g, h, ms, n - 1, player, king, in_check);
        let kept = filter_moves(h, ms, n - 1, player, king, in_check).0;
        assert(g.well_made(ms[n - 1]));
        lemma_all_made_concat(g, kept, seq![ms[n - 1]]);
        assert(kept + seq![ms[n - 1]] =~= kept.push(ms[n - 1]));
    }
}

/// The moves that the king-safety check keeps are well made.
pub proof fn lemma_checked_made(g: GameModel)
    requires
        g.wf(),
    ensures
        all_made(g, checked_moves(g).0),
{
    lemma_pseudo_made(g);
    let ms = capped(pseudo_moves(g));
    let king = g.king_of(g.current);
    lemma_filter_kept_made(g, g, ms, ms.len() as int, g.current, king, crate::movegen::attacked(g, king, g.current));
}

/// After a move that takes the other king, the side to move has no move at all.
proof fn lemma_king_taken(g: GameModel, m: Move)
    requires
        g.consistent(),
        g.well_made(m),
        m.wf(),
        g.states.len() < 512,
        takes_king(m),
    ensures
        pseudo_moves(g.pushed(m)) == Seq::<Move>::empty(),
{
    lemma_pushed_parts(g, m);
    let other = g.current.spec_the_other();
    let gp = g.pushed(m);
    let ko = g.king_of(other);
    assert(gp.king_of(gp.current) == ko);
    assert(gp.piece_at(ko) == square_after(g, m, ko));
    match m {
        Move::Normal { piece, end, captured_piece, .. } => {
            assert(captured_piece == Some(king(other)));
            lemma_king_square(g, other, end);
            Position::lemma_inv(end);
        },
        Move::Promotion { end, captured_piece, .. } => {
            assert(captured_piece == Some(king(other)));
            lemma_king_square(g, other, end);
        },
        _ => {},
    }
}

proof fn lemma_last_level_restores(g: GameModel, ms: Seq<Move>, i: int)
    requires
        g.consistent(),
        g.scores_consistent(),
        all_made(g, ms),
        crate::movegen::all_wf(ms),
        i <= ms.len(),
    ensures
        crate::performance_test::last_level(g, ms, i) == g,
    decreases i,
{
    if i > 0 {
        lemma_last_level_restores(g, ms, i - 1);
        let m = ms[i - 1];
        assert(g.well_made(m));
        assert(m.wf());
        lemma_made_reversible(g, m);
        crate::game_laws::lemma_pop_depth_1_undoes_push_depth_1(g, m);
    }
}

/// Counting the move sequences of a game that play can reach, whose square scores agree
/// with its tables, leaves the game exactly as it was.
pub proof fn lemma_perft_restores(g: GameModel, depth: int)
    requires
        g.consistent(),
        g.scores_consistent(),
        g.states.len() + depth <= 512,
    ensures
        crate::performance_test::perft_spec(g, depth).1 == g,
    decreases depth, 1int, 0int,
{
    if depth > 0 {
        lemma_checked_moves_restore(g);
        lemma_checked_made(g);
        crate::performance_test::lemma_checked_wf(g);
        let ms = checked_moves(g).0;
        if depth == 1 {
            lemma_last_level_restores(g, ms, ms.len() as int);
        } else {
            lemma_fold_restores(g, ms, ms.len() as int, depth);
        }
    }
}

proof fn lemma_fold_restores(g: GameModel, ms: Seq<Move>, i: int, depth: int)
    requires
        g.consistent(),
        g.scores_consistent(),
        g.states.len() + depth <= 512,
        depth >= 2,
        all_made(g, ms),
        crate::movegen::all_wf(ms),
        i <= ms.len(),
    ensures
        crate::performance_test::perft_fold(g, ms, i, depth).1 == g,
    decreases depth, 0int, i,
{
    if i > 0 {
        lemma_fold_restores(g, ms, i - 1, depth);
        let m = ms[i - 1];
        assert(g.well_made(m));
        assert(m.wf());
        lemma_made_reversible(g, m);
        crate::game_laws::lemma_pop_undoes_push(g, m);
        crate::game_laws::lemma_pushed_wf(g, m);
        let p = g.pushed(m);
        if takes_king(m) {
            lemma_king_taken(g, m);
            assert(capped(pseudo_moves(p)) =~= Seq::<Move>::empty());
            assert(checked_moves(p).1 == p);
            assert(checked_moves(p).0.len() == 0);
            if depth - 1 >= 2 {
                assert(crate::performance_test::perft_fold(p, checked_moves(p).0, 0, depth - 1).1 == p);
            }
            assert(crate::performance_test::perft_spec(p, depth - 1).1 == p);
        } else {
            lemma_move_keeps_consistent(g, m);
            lemma_perft_restores(p, depth - 1);
        }
        assert(p.popped(m) == g);
    }
}

// ---------------------------------------------------------------------------------------
// Searching leaves the game as it was

/// A game that play can reach, with square scores that agree with its tables.
pub open spec fn steady(g: GameModel) -> bool {
    g.consistent() && g.scores_consistent()
}

/// Playing a well-made move and taking it back restores a steady game; unless the move takes
/// a king, the game in between is steady too, and otherwise its side to move has no move.
proof fn lemma_step(g: GameModel, m: Move)
    requires
        steady(g),
        g.well_made(m),
        m.wf(),
        g.states.len() < 512,
    ensures
        g.pushed(m).wf(),
        g.pushed(m).states.len() == g.states.len() + 1,
        g.pushed(m).popped(m) == g,
        !takes_king(m) ==> steady(g.pushed(m)),
        takes_king(m) ==> pseudo_moves(g.pushed(m)) == Seq::<Move>::empty(),
{
    lemma_made_reversible(g, m);
    crate::game_laws::lemma_pop_undoes_push(g, m);
    crate::game_laws::lemma_pushed_wf(g, m);
    if takes_king(m) {
        lemma_king_taken(g, m);
    } else {
        lemma_move_keeps_consistent(g, m);
    }
}

proof fn lemma_moves_made(g: GameModel, moves: Seq<Move>, i: int)
    requires
        all_made(g, moves),
        crate::movegen::all_wf(moves),
        0 <= i < moves.len(),
    ensures
        g.well_made(moves[i]),
        moves[i].wf(),
{
}

/// A game whose side to move has no move is left as it is by the quiescence search.
proof fn lemma_quiescence_no_moves(g: GameModel, alpha: i16, beta: i16, room: nat)
    requires
        pseudo_moves(g) == Seq::<Move>::empty(),
    ensures
        crate::search::quiescence(g, alpha, beta, room) matches Some((v, h)) ==> h == g,
{
    assert(capped(pseudo_moves(g)).len() == 0);
}

proof fn lemma_shallow_no_moves(g: GameModel, alpha: i16, beta: i16, room: nat)
    requires
        pseudo_moves(g) == Seq::<Move>::empty(),
    ensures
        crate::search::shallow(g, alpha, beta, room) matches Some((v, h)) ==> h == g,
{
    assert(capped(pseudo_moves(g)).len() == 0);
}

proof fn lemma_search_no_moves(
    g: GameModel,
    depth: u8,
    ply: u8,
    alpha: i16,
    beta: i16,
    killers: Seq<Option<Move>>,
    room: nat,
)
    requires
        pseudo_moves(g) == Seq::<Move>::empty(),
    ensures
        crate::search::search(g, depth, ply, alpha, beta, killers, room) matches Some((v, h, k))
            ==> h == g,
{
    lemma_shallow_no_moves(g, alpha, beta, room);
    assert(capped(pseudo_moves(g)).len() == 0);
    assert(checked_moves(g).0.len() == 0);
}

/// The quiescence search leaves a steady game as it was.
pub proof fn lemma_quiescence_restores(g: GameModel, alpha: i16, beta: i16, room: nat)
    requires
        steady(g),
        g.states.len() + room <= 512,
    ensures
        crate::search::quiescence(g, alpha, beta, room) matches Some((v, h)) ==> h == g,
    decreases room, 1int, 0int,
{
    lemma_pseudo_made(g);
    crate::movegen::lemma_pseudo_wf(g);
    lemma_replies_restores(g, capped(pseudo_moves(g)), 0, alpha, beta, room, true);
    match crate::search::side_score(g) {
        Some(current) => {
            let a = crate::search::max_score(alpha, current);
            lemma_replies_restores(g, capped(pseudo_moves(g)), 0, a, beta, room, true);
        },
        None => {},
    }
}

proof fn lemma_reply_restores(g: GameModel, m: Move, alpha: i16, beta: i16, room: nat)
    requires
        steady(g),
        g.well_made(m),
        m.wf(),
        room > 0,
        g.states.len() + room <= 512,
    ensures
        crate::search::quiescence(g.pushed(m), alpha, beta, (room - 1) as nat) matches Some((v, h))
            ==> h.popped(m) == g,
    decreases room, 0int, 0int,
{
    lemma_step(g, m);
    if takes_king(m) {
        lemma_quiescence_no_moves(g.pushed(m), alpha, beta, (room - 1) as nat);
    } else {
        lemma_quiescence_restores(g.pushed(m), alpha, beta, (room - 1) as nat);
    }
}

proof fn lemma_replies_restores(
    g: GameModel,
    moves: Seq<Move>,
    i: int,
    alpha: i16,
    beta: i16,
    room: nat,
    tactical_only: bool,
)
    requires
        steady(g),
        g.states.len() + room <= 512,
        all_made(g, moves),
        crate::movegen::all_wf(moves),
        0 <= i,
    ensures
        crate::search::replies(g, moves, i, alpha, beta, room, tactical_only) matches Some((v, h))
            ==> h == g,
    decreases room, 0int, moves.len() - i + 1,
{
    if i < moves.len() {
        let m = moves[i];
        lemma_moves_made(g, moves, i);
        if room > 0 {
            lemma_reply_restores(g, m, crate::search::neg(beta)->Some_0, crate::search::neg(alpha)->Some_0, room);
            match (crate::search::neg(beta), crate::search::neg(alpha)) {
                (Some(nb), Some(na)) => match crate::search::quiescence(g.pushed(m), nb, na, (room - 1) as nat) {
                    Some((s, h)) => match crate::search::neg(s) {
                        Some(score) => {
                            let a = crate::search::max_score(alpha, score);
                            lemma_replies_restores(g, moves, i + 1, a, beta, room, tactical_only);
                        },
                        None => {},
                    },
                    None => {},
                },
                _ => {},
            }
        }
        lemma_replies_restores(g, moves, i + 1, alpha, beta, room, tactical_only);
    }
}

/// The search one move deep leaves a steady game as it was.
pub proof fn lemma_shallow_restores(g: GameModel, alpha: i16, beta: i16, room: nat)
    requires
        steady(g),
        g.states.len() + room <= 512,
    ensures
        crate::search::shallow(g, alpha, beta, room) matches Some((v, h)) ==> h == g,
    decreases room, 2int, 0int,
{
    lemma_pseudo_made(g);
    crate::movegen::lemma_pseudo_wf(g);
    let moves = capped(pseudo_moves(g));
    if moves.len() == 1 && room > 0 {
        let m = moves[0];
        lemma_moves_made(g, moves, 0);
        lemma_step(g, m);
        match (crate::search::neg(beta), crate::search::neg(alpha)) {
            (Some(nb), Some(na)) => {
                if takes_king(m) {
                    lemma_shallow_no_moves(g.pushed(m), nb, na, (room - 1) as nat);
                } else {
                    lemma_shallow_restores(g.pushed(m), nb, na, (room - 1) as nat);
                }
            },
            _ => {},
        }
    }
    lemma_replies_restores(g, moves, 0, alpha, beta, room, false);
}

proof fn lemma_swap_removed_made(g: GameModel, moves: Seq<Move>, index: int)
    requires
        all_made(g, moves),
        crate::movegen::all_wf(moves),
        0 <= index < moves.len(),
    ensures
        all_made(g, crate::search::swap_removed(moves, index)),
        crate::movegen::all_wf(crate::search::swap_removed(moves, index)),
{
    let r = crate::search::swap_removed(moves, index);
    assert forall|i: int| 0 <= i < r.len() implies g.well_made(#[trigger] r[i]) && r[i].wf() by {
        if i == index {
            lemma_moves_made(g, moves, moves.len() - 1);
        } else {
            lemma_moves_made(g, moves, i);
        }
    }
}

proof fn lemma_search_child(
    g: GameModel,
    m: Move,
    depth: u8,
    ply: u8,
    alpha: i16,
    beta: i16,
    killers: Seq<Option<Move>>,
    room: nat,
)
    requires
        steady(g),
        g.well_made(m),
        m.wf(),
        room > 0,
        g.states.len() + room <= 512,
    ensures
        crate::search::search(g.pushed(m), depth, ply, alpha, beta, killers, (room - 1) as nat) matches Some((s, h, ks))
            ==> h.popped(m) == g,
    decreases room, 0int, 0int,
{
    lemma_step(g, m);
    if takes_king(m) {
        lemma_search_no_moves(g.pushed(m), depth, ply, alpha, beta, killers, (room - 1) as nat);
    } else {
        lemma_search_restores(g.pushed(m), depth, ply, alpha, beta, killers, (room - 1) as nat);
    }
}

/// The alpha-beta search leaves a steady game as it was.
pub proof fn lemma_search_restores(
    g: GameModel,
    depth: u8,
    ply: u8,
    alpha: i16,
    beta: i16,
    killers: Seq<Option<Move>>,
    room: nat,
)
    requires
        steady(g),
        g.states.len() + room <= 512,
    ensures
        crate::search::search(g, depth, ply, alpha, beta, killers, room) matches Some((v, h, k))
            ==> h == g,
    decreases room, 5int, 0int,
{
    if depth == 1 {
        lemma_shallow_restores(g, alpha, beta, room);
    } else if depth != 0 && room > 0 {
        lemma_checked_moves_restore(g);
        lemma_checked_made(g);
        crate::performance_test::lemma_checked_wf(g);
        let moves = checked_moves(g).0;
        if moves.len() == 1 {
            lemma_moves_made(g, moves, 0);
            match (crate::search::neg(beta), crate::search::neg(alpha)) {
                (Some(nb), Some(na)) => {
                    lemma_search_child(g, moves[0], depth, (ply + 1) as u8, nb, na, killers, room);
                },
                _ => {},
            }
        } else if moves.len() > 1 && ply < killers.len() {
            lemma_killer_restores(g, moves, depth, ply, alpha, beta, killers, room);
            match crate::search::killer_first(g, moves, depth, ply, alpha, beta, killers, room) {
                Some((a, h, ks, rest, cut)) => {
                    if !cut {
                        if depth >= 5 {
                            lemma_keys_restores(g, rest, 0, seq![], depth, ply, a, beta, ks, room);
                            match crate::search::move_keys(g, rest, 0, seq![], depth, ply, a, beta, ks, room) {
                                Some((keys, h2, ks2)) => {
                                    crate::move_sort::lemma_moves_by_key_keeps(keys, rest, |x: Move| g.well_made(x) && x.wf());
                                    lemma_sweep_restores(g, crate::move_sort::moves_by_key(keys, rest), 0, depth, ply, a, beta, ks2, room);
                                },
                                None => {},
                            }
                        } else {
                            crate::move_sort::lemma_sorted_by_order_keeps(rest, |x: Move| g.well_made(x) && x.wf());
                            lemma_sweep_restores(g, crate::move_sort::sorted_by_order(rest), 0, depth, ply, a, beta, ks, room);
                        }
                    }
                },
                None => {},
            }
        }
    }
}

proof fn lemma_killer_restores(
    g: GameModel,
    moves: Seq<Move>,
    depth: u8,
    ply: u8,
    alpha: i16,
    beta: i16,
    killers: Seq<Option<Move>>,
    room: nat,
)
    requires
        steady(g),
        g.states.len() + room <= 512,
        all_made(g, moves),
        crate::movegen::all_wf(moves),
    ensures
        crate::search::killer_first(g, moves, depth, ply, alpha, beta, killers, room) matches Some((a, h, ks, rest, cut))
            ==> h == g && all_made(g, rest) && crate::movegen::all_wf(rest) && rest.len() <= moves.len(),
    decreases room, 4int, 0int,
{
    if room > 0 && ply < killers.len() {
        match killers[ply as int] {
            Some(k) => match crate::search::find_move(moves, k, 0) {
                Some(index) => {
                    crate::search::lemma_find_move(moves, k, 0);
                    lemma_moves_made(g, moves, index);
                    lemma_swap_removed_made(g, moves, index);
                    match (crate::search::neg(beta), crate::search::neg(alpha)) {
                        (Some(nb), Some(na)) => {
                            lemma_search_child(g, k, (depth - 1) as u8, (ply + 1) as u8, nb, na, killers, room);
                        },
                        _ => {},
                    }
                },
                None => {},
            },
            None => {},
        }
    }
}

proof fn lemma_keys_restores(
    g: GameModel,
    moves: Seq<Move>,
    i: int,
    keys: Seq<i16>,
    depth: u8,
    ply: u8,
    alpha: i16,
    beta: i16,
    killers: Seq<Option<Move>>,
    room: nat,
)
    requires
        steady(g),
        g.states.len() + room <= 512,
        all_made(g, moves),
        crate::movegen::all_wf(moves),
        0 <= i <= moves.len(),
    ensures
        crate::search::move_keys(g, moves, i, keys, depth, ply, alpha, beta, killers, room) matches Some((ks, h, k2))
            ==> h == g && ks.len() == keys.len() + moves.len() - i,
    decreases room, 3int, moves.len() - i + 1,
{
    if i < moves.len() && room > 0 {
        let m = moves[i];
        lemma_moves_made(g, moves, i);
        match (crate::search::neg(beta), crate::search::neg(alpha)) {
            (Some(nb), Some(na)) => {
                lemma_search_child(g, m, (depth - 5) as u8, (ply + 1) as u8, nb, na, killers, room);
                match crate::search::search(g.pushed(m), (depth - 5) as u8, (ply + 1) as u8, nb, na, killers, (room - 1) as nat) {
                    Some((s, h, ks)) => {
                        lemma_keys_restores(g, moves, i + 1, keys.push(s), depth, ply, alpha, beta, ks, room);
                    },
                    None => {},
                }
            },
            _ => {},
        }
    }
}

proof fn lemma_sweep_restores(
    g: GameModel,
    moves: Seq<Move>,
    i: int,
    depth: u8,
    ply: u8,
    alpha: i16,
    beta: i16,
    killers: Seq<Option<Move>>,
    room: nat,
)
    requires
        steady(g),
        g.states.len() + room <= 512,
        forall|j: int| 0 <= j < moves.len() ==> g.well_made(#[trigger] moves[j]) && moves[j].wf(),
        0 <= i,
    ensures
        crate::search::sweep(g, moves, i, depth, ply, alpha, beta, killers, room) matches Some((v, h, ks))
            ==> h == g,
    decreases room, 3int, moves.len() - i + 1,
{
    if i < moves.len() && room > 0 {
        let m = moves[i];
        assert(g.well_made(m) && m.wf());
        match (crate::search::neg(beta), crate::search::neg(alpha)) {
            (Some(nb), Some(na)) => {
                lemma_search_child(g, m, (depth - 1) as u8, (ply + 1) as u8, nb, na, killers, room);
                match crate::search::search(g.pushed(m), (depth - 1) as u8, (ply + 1) as u8, nb, na, killers, (room - 1) as nat) {
                    Some((s, h, ks)) => match crate::search::neg(s) {
                        Some(score) => {
                            let a = crate::search::max_score(alpha, score);
                            lemma_sweep_restores(g, moves, i + 1, depth, ply, a, beta, ks, room);
                        },
                        None => {},
                    },
                    None => {},
                }
            },
            _ => {},
        }
    }
}

// ---------------------------------------------------------------------------------------
// Reading back what was written

/// The bytes of one of the four texts that name castling moves: e1g1, e8g8, e1c1, e8c8.
pub open spec fn castling_text(b: Seq<u8>) -> bool {
    ||| b == seq![101u8, 49u8, 103u8, 49u8]
    ||| b == seq![101u8, 56u8, 103u8, 56u8]
    ||| b == seq![101u8, 49u8, 99u8, 49u8]
    ||| b == seq![101u8, 56u8, 99u8, 56u8]
}

proof fn lemma_square_name(p: Position)
    requires
        p.inv(),
    ensures
        (crate::move_struct::file_char(p.spec_col() as int) as u8) as int == 97 + p.spec_col(),
        (crate::move_struct::rank_char(p.spec_row() as int) as u8) as int == 49 + p.spec_row(),
        '\0' <= crate::move_struct::file_char(p.spec_col() as int) <= '\u{7f}',
        '\0' <= crate::move_struct::rank_char(p.spec_row() as int) <= '\u{7f}',
        Position::at(p.spec_row() as int, p.spec_col() as int) == p,
        on_board(p.spec_row() as int, p.spec_col() as int),
{
    Position::lemma_inv(p);
    Position::lemma_at(p.spec_row() as int, p.spec_col() as int);
    Position::lemma_eq(p, Position::at(p.spec_row() as int, p.spec_col() as int));
}

/// Reading back the UCI notation of a move that the game generates gives the move again, in
/// a game that play can reach. The exception is a plain move whose squares are those of a
/// castling move (a rook from e1 to g1, say): it reads back as that castling move.
pub proof fn lemma_uci_round_trip(g: GameModel, m: Move)
    requires
        g.consistent(),
        g.well_made(m),
        !(m is Normal && castling_text(vstd::utf8::encode_utf8(m.uci()))),
    ensures
        m.writable(),
        parse_uci(vstd::utf8::encode_utf8(m.uci()), g) == Ok::<Move, Seq<char>>(m),
{
    let cs = m.uci();
    match m {
        Move::Normal { start, end, .. } => {
            lemma_square_name(start);
            lemma_square_name(end);
        },
        Move::Promotion { start, end, .. } => {
            lemma_square_name(start);
            lemma_square_name(end);
        },
        Move::EnPassant { owner, start_col, end_col } => {
            Position::lemma_at(en_passant_row(owner), start_col as int);
            Position::lemma_at(en_passant_target_row(owner), end_col as int);
            lemma_at_idx(en_passant_target_row(owner), end_col as int);
        },
        _ => {},
    }
    assert(vstd::utf8::is_ascii_chars(cs));
    vstd::utf8::is_ascii_chars_encode_utf8(cs);
    let b = vstd::utf8::encode_utf8(cs);
    assert(b.len() == cs.len());
    match m {
        Move::CastlingShort { owner } => {
            match owner {
                Players::White => {
                    assert(b =~= seq![101u8, 49u8, 103u8, 49u8]);
                    assert(b.len() == 4);
                    assert(parse_uci(b, g) == Ok::<Move, Seq<char>>(Move::CastlingShort { owner: Players::White }));
                },
                Players::Black => {
                    assert(b =~= seq![101u8, 56u8, 103u8, 56u8]);
                    assert(b != seq![101u8, 49u8, 103u8, 49u8]) by {
                        assert(b[1] != seq![101u8, 49u8, 103u8, 49u8][1]);
                    }
                    assert(parse_uci(b, g) == Ok::<Move, Seq<char>>(Move::CastlingShort { owner: Players::Black }));
                },
            }
        },
        Move::CastlingLong { owner } => {
            assert(b != seq![101u8, 49u8, 103u8, 49u8]) by {
                assert(b[2] != seq![101u8, 49u8, 103u8, 49u8][2]);
            }
            assert(b != seq![101u8, 56u8, 103u8, 56u8]) by {
                assert(b[2] != seq![101u8, 56u8, 103u8, 56u8][2]);
            }
            match owner {
                Players::White => assert(b =~= seq![101u8, 49u8, 99u8, 49u8]),
                Players::Black => {
                    assert(b =~= seq![101u8, 56u8, 99u8, 56u8]);
                    assert(b != seq![101u8, 49u8, 99u8, 49u8]) by {
                        assert(b[1] != seq![101u8, 49u8, 99u8, 49u8][1]);
                    }
                },
            }
        },
        Move::Normal { start, end, .. } => {
            assert(b[0] as int == 97 + start.spec_col());
            assert(b[1] as int == 49 + start.spec_row());
            assert(b[2] as int == 97 + end.spec_col());
            assert(b[3] as int == 49 + end.spec_row());
            assert(parse_uci(b, g) == Ok::<Move, Seq<char>>(m));
        },
        Move::Promotion { start, end, .. } => {
            assert(b[0] as int == 97 + start.spec_col());
            assert(b[1] as int == 49 + start.spec_row());
            assert(b[2] as int == 97 + end.spec_col());
            assert(b[3] as int == 49 + end.spec_row());
            assert(!castling_text(b));
            assert(parse_uci(b, g) == Ok::<Move, Seq<char>>(m));
        },
        Move::EnPassant { owner, start_col, end_col } => {
            assert(!castling_text(b)) by {
                assert(b[1] != 49u8 && b[1] != 56u8);
            }
            assert(parse_uci(b, g) == Ok::<Move, Seq<char>>(m));
        },
    }
}

// ---------------------------------------------------------------------------------------
// The starting position

/// What the square with index `k` adds to the material count.
spec fn material_term(g: GameModel, k: int) -> int {
    crate::chess_game::abs_int(
        crate::piece::place_value(g.tables, g.board[k], Position::at(k / 8, k % 8)) as int,
    )
}

proof fn lemma_material_mono(g: GameModel, a: int, b: int)
    requires
        0 <= a <= b,
    ensures
        g.material(a) <= g.material(b),
    decreases b - a,
{
    if a < b {
        lemma_material_mono(g, a, b - 1);
    }
}

proof fn lemma_material_step(g: GameModel, a: int, k: int)
    requires
        0 <= a <= k,
    ensures
        g.material(k + 1) >= g.material(a) + material_term(g, k),
{
    lemma_material_mono(g, a, k);
}

/// The starting position: both kings and all four rooks on their squares, all castling
/// rights, no en passant column, and enough material that the endgame has not started.
pub proof fn lemma_start_steady(g: GameModel)
    requires
        g.wf(),
        g == crate::fen::start_game(crate::fen::initial_read()).phase_updated(),
    ensures
        steady(g),
{
    let f = crate::fen::initial_read();
    let g0 = crate::fen::start_game(f);
    let t = g0.tables;
    // Enough material: the queens and rooks alone are worth more than the threshold.
    assert(t[0] == crate::scores::QUEEN_SCORES@);
    assert(t[1] == crate::scores::ROOK_SCORES@);
    lemma_at_idx(0, 0);
    lemma_at_idx(0, 3);
    lemma_at_idx(0, 7);
    lemma_at_idx(7, 0);
    lemma_at_idx(7, 3);
    lemma_at_idx(7, 7);
    Position::lemma_at(0, 0);
    Position::lemma_at(0, 3);
    Position::lemma_at(0, 7);
    Position::lemma_at(7, 0);
    Position::lemma_at(7, 3);
    Position::lemma_at(7, 7);
    assert(material_term(g0, 0) >= 400);
    assert(material_term(g0, 3) >= 800);
    assert(material_term(g0, 7) >= 400);
    assert(material_term(g0, 56) >= 400);
    assert(material_term(g0, 59) >= 800);
    assert(material_term(g0, 63) >= 400);
    lemma_material_step(g0, 0, 0);
    lemma_material_step(g0, 1, 3);
    lemma_material_step(g0, 4, 7);
    lemma_material_step(g0, 8, 56);
    lemma_material_step(g0, 57, 59);
    lemma_material_step(g0, 60, 63);
    assert(g0.material(64) >= 3200);
    assert(!g0.in_endgame());
    assert(g == g0);
    // The kings.
    lemma_at_idx(0, 4);
    lemma_at_idx(7, 4);
    assert forall|i: int| 0 <= i < 64 && #[trigger] g.board[i] == Some(king(Players::White)) implies square_of(i)
        == g.king_of(Players::White) by {
        assert(crate::fen::initial_place(i) == Some(king(Players::White)));
    }
    assert forall|i: int| 0 <= i < 64 && #[trigger] g.board[i] == Some(king(Players::Black)) implies square_of(i)
        == g.king_of(Players::Black) by {
        assert(crate::fen::initial_place(i) == Some(king(Players::Black)));
    }
    // The castling rights and the en passant column.
    let s0 = GameState::from_bits(8);
    let s1 = s0.with_right(4);
    let s2 = s1.with_right(5);
    let s3 = s2.with_right(6);
    GameState::lemma_bits(8, s0, s0);
    assert(8u8 & 15u8 == 8) by (bit_vector);
    GameState::lemma_rights(s0, 4);
    GameState::lemma_rights(s1, 5);
    GameState::lemma_rights(s2, 6);
    GameState::lemma_rights(s3, 7);
    assert(g.top_state() == f.state);
    assert(g.top_state().spec_en_passant() == 8);
    // The square scores.
    assert forall|i: int| 0 <= i < 64 implies #[trigger] g.past_scores[i] == crate::piece::place_value(
        g.tables,
        g.board[i],
        square_of(i),
    ) by {}
}

// ---------------------------------------------------------------------------------------
// The king-safety check keeps only safe moves

/// `g2` is `g` with a piece of `player` moved from `start` to `end`: `start` is empty, `end`
/// holds a piece of `player`, and every other square is as it was.
pub open spec fn only_moved(g: GameModel, g2: GameModel, start: Position, end: Position, player: Players) -> bool {
    let (sr, sc) = (start.spec_row() as int, start.spec_col() as int);
    let (er, ec) = (end.spec_row() as int, end.spec_col() as int);
    &&& forall|r: int, c: int|
        on_board(r, c) && !(r == er && c == ec) && !(r == sr && c == sc) ==> #[trigger] at(g2, r, c)
            == at(g, r, c)
    &&& !(sr == er && sc == ec) ==> at(g2, sr, sc) is None
    &&& match at(g2, er, ec) {
        Some(p) => p.owner == player,
        None => false,
    }
}

/// `(row, col)` lies on the line through `(kr, kc)` in direction `(dr, dc)`.
pub open spec fn on_line(row: int, col: int, kr: int, kc: int, dr: int, dc: int) -> bool {
    &&& (dr == 0 ==> row == kr)
    &&& (dc == 0 ==> col == kc)
    &&& (dr != 0 && dr == dc ==> row - kr == col - kc)
    &&& (dr != 0 && dr == -dc ==> row - kr == kc - col)
}

/// `start` lies on no row, column or diagonal through `(kr, kc)`.
pub open spec fn off_lines(start: Position, kr: int, kc: int) -> bool {
    let dr = start.spec_row() - kr;
    let dc = start.spec_col() - kc;
    dr != 0 && dc != 0 && dr != dc && dr != -dc
}

proof fn lemma_ray_no_new_hit(
    g: GameModel,
    g2: GameModel,
    start: Position,
    end: Position,
    player: Players,
    kr: int,
    kc: int,
    row: int,
    col: int,
    dr: int,
    dc: int,
    n: nat,
    t1: PieceTypes,
    t2: PieceTypes,
)
    requires
        only_moved(g, g2, start, end, player),
        -1 <= dr <= 1,
        -1 <= dc <= 1,
        dr != 0 || dc != 0,
        on_line(row, col, kr, kc, dr, dc),
        off_lines(start, kr, kc),
        crate::movegen::ray_hits(g2, row, col, dr, dc, n, player, t1, t2),
    ensures
        crate::movegen::ray_hits(g, row, col, dr, dc, n, player, t1, t2),
    decreases n,
{
    if n != 0 && on_board(row, col) {
        assert(at(g2, row, col) == at(g2, row, col));
        if at(g2, row, col) is None {
            lemma_ray_no_new_hit(g, g2, start, end, player, kr, kc, row + dr, col + dc, dr, dc, (n - 1) as nat, t1, t2);
        }
    }
}

proof fn lemma_rays_no_new_hit(
    g: GameModel,
    g2: GameModel,
    start: Position,
    end: Position,
    player: Players,
    kr: int,
    kc: int,
    dirs: Seq<(i8, i8)>,
    n: int,
    t1: PieceTypes,
    t2: PieceTypes,
)
    requires
        only_moved(g, g2, start, end, player),
        off_lines(start, kr, kc),
        n <= dirs.len(),
        forall|k: int|
            0 <= k < dirs.len() ==> {
                &&& -1 <= (#[trigger] dirs[k]).0 <= 1
                &&& -1 <= dirs[k].1 <= 1
                &&& (dirs[k].0 != 0 || dirs[k].1 != 0)
                &&& (dirs[k].0 == 0 || dirs[k].1 == 0 || dirs[k].0 == dirs[k].1 || dirs[k].0
                    == -dirs[k].1)
            },
        crate::movegen::rays_hit(g2, kr, kc, dirs, n, player, t1, t2),
    ensures
        crate::movegen::rays_hit(g, kr, kc, dirs, n, player, t1, t2),
    decreases n,
{
    if n > 0 {
        let d = dirs[n - 1];
        if crate::movegen::rays_hit(g2, kr, kc, dirs, n - 1, player, t1, t2) {
            lemma_rays_no_new_hit(g, g2, start, end, player, kr, kc, dirs, n - 1, t1, t2);
        } else {
            lemma_ray_no_new_hit(
                g,
                g2,
                start,
                end,
                player,
                kr,
                kc,
                kr + d.0,
                kc + d.1,
                d.0 as int,
                d.1 as int,
                8,
                t1,
                t2,
            );
        }
    }
}

proof fn lemma_steps_no_new_hit(
    g: GameModel,
    g2: GameModel,
    start: Position,
    end: Position,
    player: Players,
    r: int,
    c: int,
    steps: Seq<(i8, i8)>,
    n: int,
    t: PieceTypes,
)
    requires
        only_moved(g, g2, start, end, player),
        crate::movegen::step_hits(g2, r, c, steps, n, player, t),
    ensures
        crate::movegen::step_hits(g, r, c, steps, n, player, t),
    decreases n,
{
    if n > 0 {
        if crate::movegen::step_hits(g2, r, c, steps, n - 1, player, t) {
            lemma_steps_no_new_hit(g, g2, start, end, player, r, c, steps, n - 1, t);
        } else {
            let (sr, sc) = (r + steps[n - 1].0, c + steps[n - 1].1);
            if on_board(sr, sc) {
                assert(at(g2, sr, sc) == at(g2, sr, sc));
            }
        }
    }
}

/// Moving a piece that stands on no line through a square, onto a square that it then
/// holds, attacks that square no more than before.
proof fn lemma_no_new_attack(g: GameModel, g2: GameModel, start: Position, end: Position, player: Players, king: Position)
    requires
        only_moved(g, g2, start, end, player),
        off_lines(start, king.spec_row() as int, king.spec_col() as int),
        crate::movegen::attacked(g2, king, player),
    ensures
        crate::movegen::attacked(g, king, player),
{
    reveal(crate::movegen::attacked);
    let r = king.spec_row() as int;
    let c = king.spec_col() as int;
    if crate::movegen::step_hits(g2, r, c, crate::movegen::king_attack_steps(), 8, player, PieceTypes::King) {
        lemma_steps_no_new_hit(g, g2, start, end, player, r, c, crate::movegen::king_attack_steps(), 8, PieceTypes::King);
    }
    if crate::movegen::step_hits(g2, r, c, knight_steps(), 8, player, PieceTypes::Knight) {
        lemma_steps_no_new_hit(g, g2, start, end, player, r, c, knight_steps(), 8, PieceTypes::Knight);
    }
    if crate::movegen::step_hits(g2, r, c, crate::movegen::pawn_attack_steps(player), 2, player, PieceTypes::Pawn) {
        lemma_steps_no_new_hit(g, g2, start, end, player, r, c, crate::movegen::pawn_attack_steps(player), 2, PieceTypes::Pawn);
    }
    assert(rook_dirs()[0] == (0i8, 1i8) && rook_dirs()[1] == (0i8, -1i8) && rook_dirs()[2] == (
    1i8, 0i8) && rook_dirs()[3] == (-1i8, 0i8));
    assert(bishop_dirs()[0] == (1i8, 1i8) && bishop_dirs()[1] == (-1i8, -1i8) && bishop_dirs()[2]
        == (1i8, -1i8) && bishop_dirs()[3] == (-1i8, 1i8));
    if crate::movegen::rays_hit(g2, r, c, rook_dirs(), 4, player, PieceTypes::Rook, PieceTypes::Queen) {
        lemma_rays_no_new_hit(g, g2, start, end, player, r, c, rook_dirs(), 4, PieceTypes::Rook, PieceTypes::Queen);
    }
    if crate::movegen::rays_hit(g2, r, c, bishop_dirs(), 4, player, PieceTypes::Bishop, PieceTypes::Queen) {
        lemma_rays_no_new_hit(g, g2, start, end, player, r, c, bishop_dirs(), 4, PieceTypes::Bishop, PieceTypes::Queen);
    }
}

/// A plain move of a piece off the lines of its king, when the king is not in check, leaves
/// the king unattacked.
proof fn lemma_quick_move_safe(g: GameModel, m: Move)
    requires
        g.consistent(),
        g.well_made(m),
        m.wf(),
        g.states.len() < 512,
        crate::movegen::off_king_lines(m, g.king_of(g.current)),
        !crate::movegen::attacked(g, g.king_of(g.current), g.current),
    ensures
        !crate::movegen::attacked(g.pushed(m), g.pushed(m).king_of(g.current), g.current),
{
    lemma_pushed_parts(g, m);
    let cur = g.current;
    let g2 = g.pushed(m);
    match m {
        Move::Normal { piece, start, end, .. } => {
            if piece.piece_type == PieceTypes::King {
                assert(piece == king(cur));
                lemma_king_square(g, cur, start);
            }
            assert(g2.king_of(cur) == g.king_of(cur));
            Position::lemma_inv(start);
            Position::lemma_inv(end);
            Position::lemma_eq(start, end);
            assert forall|r: int, c: int|
                on_board(r, c) && !(r == end.spec_row() && c == end.spec_col()) && !(r
                    == start.spec_row() && c == start.spec_col()) implies #[trigger] at(g2, r, c)
                == at(g, r, c) by {
                lemma_at_idx(r, c);
                Position::lemma_at(r, c);
                Position::lemma_eq(Position::at(r, c), start);
                Position::lemma_eq(Position::at(r, c), end);
                assert(g2.piece_at(Position::at(r, c)) == square_after(g, m, Position::at(r, c)));
            }
            lemma_square_name(start);
            lemma_square_name(end);
            lemma_at_idx(start.spec_row() as int, start.spec_col() as int);
            lemma_at_idx(end.spec_row() as int, end.spec_col() as int);
            assert(g2.piece_at(start) == square_after(g, m, start));
            assert(g2.piece_at(end) == square_after(g, m, end));
            let k = g.king_of(cur);
            if crate::movegen::attacked(g2, k, cur) {
                lemma_no_new_attack(g, g2, start, end, cur, k);
            }
        },
        _ => {},
    }
}

/// In a game that play can reach, every move that `get_moves` keeps after the king-safety
/// check leaves the mover's king unattacked.
pub proof fn lemma_checked_moves_safe(g: GameModel)
    requires
        g.consistent(),
        g.states.len() < 512,
    ensures
        forall|i: int|
            0 <= i < checked_moves(g).0.len() ==> !crate::movegen::attacked(
                g.pushed(#[trigger] checked_moves(g).0[i]),
                g.pushed(checked_moves(g).0[i]).king_of(g.current),
                g.current,
            ),
{
    lemma_checked_moves_exact(g);
    let ms = capped(pseudo_moves(g));
    assert forall|i: int| 0 <= i < checked_moves(g).0.len() implies !crate::movegen::attacked(
        g.pushed(#[trigger] checked_moves(g).0[i]),
        g.pushed(checked_moves(g).0[i]).king_of(g.current),
        g.current,
    ) by {
        ms.lemma_filter_pred(safe_in(g), i);
    }
}

proof fn lemma_filter_subset(
    g: GameModel,
    ms: Seq<Move>,
    n: int,
    player: Players,
    king: Position,
    in_check: bool,
)
    requires
        0 <= n <= ms.len(),
    ensures
        forall|i: int|
            0 <= i < filter_moves(g, ms, n, player, king, in_check).0.len() ==> ms.contains(
                #[trigger] filter_moves(g, ms, n, player, king, in_check).0[i],
            ),
    decreases n,
{
    if n > 0 {
        lemma_filter_subset(g, ms, n - 1, player, king, in_check);
        assert(ms.contains(ms[n - 1]));
        let prev = filter_moves(g, ms, n - 1, player, king, in_check).0;
        let now = filter_moves(g, ms, n, player, king, in_check).0;
        assert forall|i: int| 0 <= i < now.len() implies ms.contains(#[trigger] now[i]) by {
            if i < prev.len() {
                assert(now[i] == prev[i]);
                assert(ms.contains(prev[i]));
            } else {
                assert(now[i] == ms[n - 1]);
            }
        }
    }
}

/// The king-safety check only takes moves away: every move it keeps is one that the
/// generator made.
pub proof fn lemma_checked_moves_generated(g: GameModel)
    ensures
        forall|i: int|
            0 <= i < checked_moves(g).0.len() ==> pseudo_moves(g).contains(
                #[trigger] checked_moves(g).0[i],
            ),
{
    let ms = capped(pseudo_moves(g));
    let king = g.king_of(g.current);
    lemma_filter_subset(g, ms, ms.len() as int, g.current, king, crate::movegen::attacked(g, king, g.current));
    assert forall|i: int| 0 <= i < checked_moves(g).0.len() implies pseudo_moves(g).contains(
        #[trigger] checked_moves(g).0[i],
    ) by {
        let x = checked_moves(g).0[i];
        assert(ms.contains(x));
        let j = choose|j: int| 0 <= j < ms.len() && ms[j] == x;
        assert(pseudo_moves(g)[j] == x);
    }
}

/// Taking back the last recorded move undoes recording and playing it, in a steady game
/// where the phase check that comes with recording changes nothing (the endgame does not
/// start there).
pub proof fn lemma_pop_history_undoes_push_history(g: GameModel, m: Move)
    requires
        steady(g),
        g.states.len() < 512,
        pseudo_moves(g).contains(m),
        (GameModel { history: g.history.push(m), ..g }).phase_updated() == (GameModel {
            history: g.history.push(m),
            ..g
        }),
    ensures
        ({
            let after = crate::uci::recorded(g, m);
            &&& after.history.last() == m
            &&& after.history.len() > 0
            &&& after.states.len() >= 2
            &&& (GameModel { history: after.history.drop_last(), ..after }).popped(m) == g
        }),
{
    let gh = GameModel { history: g.history.push(m), ..g };
    lemma_pseudo_made(g);
    crate::movegen::lemma_pseudo_wf(g);
    let i = choose|i: int| 0 <= i < pseudo_moves(g).len() && pseudo_moves(g)[i] == m;
    assert(g.well_made(pseudo_moves(g)[i]));
    assert(pseudo_moves(g)[i].wf());
    assert(gh.well_made(m));
    assert(steady(gh));
    lemma_made_reversible(gh, m);
    crate::game_laws::lemma_pop_undoes_push(gh, m);
    crate::game_laws::lemma_pushed_wf(gh, m);
    reveal(GameModel::pushed);
    reveal(GameModel::popped);
    reveal(GameModel::backward_board);
    crate::game_laws::lemma_forward_wf(gh, m);
    let after = gh.pushed(m);
    assert(after.history == gh.history);
    assert(after.history.drop_last() =~= g.history);
    let back = GameModel { history: after.history.drop_last(), ..after };
    assert(back.popped(m) == GameModel { history: g.history, ..after.popped(m) });
    assert(back.popped(m) =~= g);
}

/// Playing `m` leaves the king of the side that plays it unattacked.
pub open spec fn keeps_king_safe(g: GameModel, m: Move) -> bool {
    !crate::movegen::attacked(g.pushed(m), g.pushed(m).king_of(g.current), g.current)
}

/// The test `keeps_king_safe` in `g`, as a predicate on moves.
pub open spec fn safe_in(g: GameModel) -> spec_fn(Move) -> bool {
    |m: Move| keeps_king_safe(g, m)
}

/// Two games hold the same position: the same board, king squares, side to move and state
/// stack (their scores may differ).
pub open spec fn same_position(a: GameModel, b: GameModel) -> bool {
    &&& a.board == b.board
    &&& a.kings == b.kings
    &&& a.current == b.current
    &&& a.states == b.states
}

proof fn lemma_step_hits_board(
    a: GameModel,
    b: GameModel,
    r: int,
    c: int,
    steps: Seq<(i8, i8)>,
    n: int,
    player: Players,
    t: PieceTypes,
)
    requires
        a.board == b.board,
    ensures
        crate::movegen::step_hits(a, r, c, steps, n, player, t) == crate::movegen::step_hits(
            b,
            r,
            c,
            steps,
            n,
            player,
            t,
        ),
    decreases n,
{
    if n > 0 {
        lemma_step_hits_board(a, b, r, c, steps, n - 1, player, t);
    }
}

proof fn lemma_ray_hits_board(
    a: GameModel,
    b: GameModel,
    row: int,
    col: int,
    dr: int,
    dc: int,
    n: nat,
    player: Players,
    t1: PieceTypes,
    t2: PieceTypes,
)
    requires
        a.board == b.board,
    ensures
        crate::movegen::ray_hits(a, row, col, dr, dc, n, player, t1, t2)
            == crate::movegen::ray_hits(b, row, col, dr, dc, n, player, t1, t2),
    decreases n,
{
    if n > 0 {
        lemma_ray_hits_board(a, b, row + dr, col + dc, dr, dc, (n - 1) as nat, player, t1, t2);
    }
}

proof fn lemma_rays_hit_board(
    a: GameModel,
    b: GameModel,
    r: int,
    c: int,
    dirs: Seq<(i8, i8)>,
    n: int,
    player: Players,
    t1: PieceTypes,
    t2: PieceTypes,
)
    requires
        a.board == b.board,
    ensures
        crate::movegen::rays_hit(a, r, c, dirs, n, player, t1, t2) == crate::movegen::rays_hit(
            b,
            r,
            c,
            dirs,
            n,
            player,
            t1,
            t2,
        ),
    decreases n,
{
    if n > 0 {
        lemma_rays_hit_board(a, b, r, c, dirs, n - 1, player, t1, t2);
        let d = dirs[n - 1];
        lemma_ray_hits_board(a, b, r + d.0, c + d.1, d.0 as int, d.1 as int, 8, player, t1, t2);
    }
}

/// Whether a square is attacked depends on the board alone.
pub proof fn lemma_attacked_board(a: GameModel, b: GameModel, pos: Position, player: Players)
    requires
        a.board == b.board,
    ensures
        crate::movegen::attacked(a, pos, player) == crate::movegen::attacked(b, pos, player),
{
    reveal(crate::movegen::attacked);
    let r = pos.spec_row() as int;
    let c = pos.spec_col() as int;
    lemma_step_hits_board(a, b, r, c, crate::movegen::king_attack_steps(), 8, player, PieceTypes::King);
    lemma_step_hits_board(a, b, r, c, knight_steps(), 8, player, PieceTypes::Knight);
    lemma_step_hits_board(a, b, r, c, crate::movegen::pawn_attack_steps(player), 2, player, PieceTypes::Pawn);
    lemma_rays_hit_board(a, b, r, c, rook_dirs(), 4, player, PieceTypes::Rook, PieceTypes::Queen);
    lemma_rays_hit_board(a, b, r, c, bishop_dirs(), 4, player, PieceTypes::Bishop, PieceTypes::Queen);
}

/// Playing the same move in two games that hold the same position gives games that hold
/// the same position.
proof fn lemma_pushed_same(a: GameModel, b: GameModel, m: Move)
    requires
        same_position(a, b),
    ensures
        same_position(a.pushed(m), b.pushed(m)),
{
    reveal(GameModel::pushed);
    reveal(GameModel::forward_board);
}

proof fn lemma_filter_exact(
    g: GameModel,
    ms: Seq<Move>,
    n: int,
    player: Players,
    king: Position,
    in_check: bool,
)
    requires
        g.consistent(),
        g.states.len() < 512,
        all_made(g, ms),
        crate::movegen::all_wf(ms),
        0 <= n <= ms.len(),
        player == g.current,
        king == g.king_of(player),
        in_check == crate::movegen::attacked(g, king, player),
    ensures
        filter_moves(g, ms, n, player, king, in_check).1.wf(),
        same_position(filter_moves(g, ms, n, player, king, in_check).1, g),
        filter_moves(g, ms, n, player, king, in_check).0 == ms.take(n).filter(safe_in(g)),
    decreases n,
{
    if n > 0 {
        lemma_filter_exact(g, ms, n - 1, player, king, in_check);
        let h = filter_moves(g, ms, n - 1, player, king, in_check).1;
        let m = ms[n - 1];
        assert(g.well_made(m));
        assert(m.wf());
        lemma_made_reversible(g, m);
        if !in_check && crate::movegen::off_king_lines(m, king) {
            lemma_quick_move_safe(g, m);
        } else {
            assert(h.reversible(m));
            crate::game_laws::lemma_pop_undoes_push(h, m);
            crate::game_laws::lemma_pushed_wf(h, m);
            crate::game_laws::lemma_popped_wf(h.pushed(m), m);
            lemma_pushed_same(h, g, m);
            let p = h.pushed(m);
            lemma_attacked_board(p, g.pushed(m), p.king_of(player), player);
        }
        assert(ms.take(n).drop_last() =~= ms.take(n - 1));
        assert(ms.take(n).last() == m);
        assert(safe_in(g)(m) == keeps_king_safe(g, m));
        reveal(Seq::filter);
        let prev = ms.take(n - 1).filter(safe_in(g));
        assert(ms.take(n).filter(safe_in(g)) == if keeps_king_safe(g, m) {
            prev.push(m)
        } else {
            prev
        });
    } else {
        reveal(Seq::filter);
        assert(ms.take(0) =~= Seq::<Move>::empty());
    }
}

/// In a game that play can reach, the king-safety check keeps exactly the generated moves
/// that leave the mover's king unattacked, in the order the generator made them.
pub proof fn lemma_checked_moves_exact(g: GameModel)
    requires
        g.consistent(),
        g.states.len() < 512,
    ensures
        checked_moves(g).0 == capped(pseudo_moves(g)).filter(safe_in(g)),
{
    lemma_pseudo_made(g);
    crate::movegen::lemma_pseudo_wf(g);
    let ms = capped(pseudo_moves(g));
    let king = g.king_of(g.current);
    lemma_filter_exact(g, ms, ms.len() as int, g.current, king, crate::movegen::attacked(g, king, g.current));
    assert(ms.take(ms.len() as int) =~= ms);
}

/// A side whose king stands on the square recorded for it, and has no other king on the
/// board, has its king in place; so it is for a game read from a FEN string with one king
/// per side.
pub proof fn lemma_single_king_in_place(g: GameModel, p: Players)
    requires
        g.wf(),
        g.piece_at(g.king_of(p)) == Some(king(p)),
        forall|i: int, j: int|
            0 <= i < 64 && 0 <= j < 64 && g.board[i] == Some(king(p)) && g.board[j] == Some(king(p))
                ==> i == j,
    ensures
        g.king_in_place(p),
{
    let k = g.king_of(p);
    Position::lemma_idx(k, k);
    crate::game_laws::lemma_square_of(k);
}

// ---------------------------------------------------------------------------------------
// A king can only be taken where it is attacked

/// If `m` takes a king, that king's square is attacked.
pub open spec fn sees_capture(g: GameModel, m: Move) -> bool {
    match m {
        Move::Normal { end, captured_piece, .. } => match captured_piece {
            Some(c) => c.piece_type == PieceTypes::King ==> crate::movegen::attacked(g, end, c.owner),
            None => true,
        },
        Move::Promotion { end, captured_piece, .. } => match captured_piece {
            Some(c) => c.piece_type == PieceTypes::King ==> crate::movegen::attacked(g, end, c.owner),
            None => true,
        },
        _ => true,
    }
}

pub open spec fn all_seen(g: GameModel, s: Seq<Move>) -> bool {
    forall|i: int| 0 <= i < s.len() ==> sees_capture(g, #[trigger] s[i])
}

proof fn lemma_all_seen_concat(g: GameModel, a: Seq<Move>, b: Seq<Move>)
    requires
        all_seen(g, a),
        all_seen(g, b),
    ensures
        all_seen(g, a + b),
{
    assert forall|i: int| 0 <= i < (a + b).len() implies sees_capture(g, #[trigger] (a + b)[i]) by {
        if i < a.len() {
            assert((a + b)[i] == a[i]);
        } else {
            assert((a + b)[i] == b[i - a.len()]);
        }
    }
}

/// A slide of `piece` that takes a king on `end` means the way back from `end` to the piece
/// is free.
pub open spec fn ray_seen(g: GameModel, m: Move, dr: int, dc: int, t1: PieceTypes, t2: PieceTypes) -> bool {
    match m {
        Move::Normal { end, captured_piece, .. } => match captured_piece {
            Some(c) => c.piece_type == PieceTypes::King ==> crate::movegen::ray_hits(
                g,
                end.spec_row() - dr,
                end.spec_col() - dc,
                -dr,
                -dc,
                8,
                c.owner,
                t1,
                t2,
            ),
            None => true,
        },
        Move::Promotion { .. } => false,
        _ => true,
    }
}

proof fn lemma_ray_hits_mono(
    g: GameModel,
    row: int,
    col: int,
    dr: int,
    dc: int,
    n: nat,
    k: nat,
    player: Players,
    t1: PieceTypes,
    t2: PieceTypes,
)
    requires
        n <= k,
        crate::movegen::ray_hits(g, row, col, dr, dc, n, player, t1, t2),
    ensures
        crate::movegen::ray_hits(g, row, col, dr, dc, k, player, t1, t2),
    decreases n,
{
    if n > 0 && on_board(row, col) && at(g, row, col) is None {
        lemma_ray_hits_mono(g, row + dr, col + dc, dr, dc, (n - 1) as nat, (k - 1) as nat, player, t1, t2);
    }
}

proof fn lemma_ray_sees(
    g: GameModel,
    piece: Piece,
    start: Position,
    row: int,
    col: int,
    dr: int,
    dc: int,
    n: nat,
    steps: nat,
    t1: PieceTypes,
    t2: PieceTypes,
)
    requires
        piece.owner == g.current,
        1 <= steps,
        steps + n <= 9,
        crate::movegen::ray_hits(g, row - dr, col - dc, -dr, -dc, steps, g.current.spec_the_other(), t1, t2),
    ensures
        forall|i: int|
            0 <= i < ray_moves(g, piece, start, row, col, dr, dc, n).len() ==> ray_seen(
                g,
                #[trigger] ray_moves(g, piece, start, row, col, dr, dc, n)[i],
                dr,
                dc,
                t1,
                t2,
            ),
    decreases n,
{
    let out = ray_moves(g, piece, start, row, col, dr, dc, n);
    if n != 0 && on_board(row, col) {
        Position::lemma_at(row, col);
        match at(g, row, col) {
            Some(p) => {
                if p.owner != g.current {
                    lemma_ray_hits_mono(g, row - dr, col - dc, -dr, -dc, steps, 8, p.owner, t1, t2);
                }
            },
            None => {
                let rest = ray_moves(g, piece, start, row + dr, col + dc, dr, dc, (n - 1) as nat);
                assert(crate::movegen::ray_hits(g, row, col, -dr, -dc, steps + 1, g.current.spec_the_other(), t1, t2));
                lemma_ray_sees(g, piece, start, row + dr, col + dc, dr, dc, (n - 1) as nat, steps + 1, t1, t2);
                assert forall|i: int| 0 <= i < out.len() implies ray_seen(g, #[trigger] out[i], dr, dc, t1, t2) by {
                    if i > 0 {
                        assert(out[i] == rest[i - 1]);
                    }
                }
            },
        }
    }
}

proof fn lemma_rays_hit_at(
    g: GameModel,
    r: int,
    c: int,
    dirs: Seq<(i8, i8)>,
    n: int,
    k: int,
    player: Players,
    t1: PieceTypes,
    t2: PieceTypes,
)
    requires
        0 <= k < n,
        crate::movegen::ray_hits(
            g,
            r + dirs[k].0,
            c + dirs[k].1,
            dirs[k].0 as int,
            dirs[k].1 as int,
            8,
            player,
            t1,
            t2,
        ),
    ensures
        crate::movegen::rays_hit(g, r, c, dirs, n, player, t1, t2),
    decreases n,
{
    if k < n - 1 {
        lemma_rays_hit_at(g, r, c, dirs, n - 1, k, player, t1, t2);
    }
}

/// A slide that takes a king along a row or column, or along a diagonal, means the king is
/// attacked.
proof fn lemma_ray_seen_attacked(g: GameModel, m: Move, d0: int, d1: int)
    requires
        -1 <= d0 <= 1,
        -1 <= d1 <= 1,
        d0 != 0 || d1 != 0,
        d0 == 0 || d1 == 0 ==> ray_seen(g, m, d0, d1, PieceTypes::Rook, PieceTypes::Queen),
        d0 != 0 && d1 != 0 ==> ray_seen(g, m, d0, d1, PieceTypes::Bishop, PieceTypes::Queen),
    ensures
        sees_capture(g, m),
{
    match m {
        Move::Normal { end, captured_piece, .. } => match captured_piece {
            Some(cp) => if cp.piece_type == PieceTypes::King {
                reveal(crate::movegen::attacked);
                let r = end.spec_row() as int;
                let c = end.spec_col() as int;
                let rd = rook_dirs();
                let bd = bishop_dirs();
                assert(rd[0] == (0i8, 1i8) && rd[1] == (0i8, -1i8) && rd[2] == (1i8, 0i8) && rd[3]
                    == (-1i8, 0i8));
                assert(bd[0] == (1i8, 1i8) && bd[1] == (-1i8, -1i8) && bd[2] == (1i8, -1i8) && bd[3]
                    == (-1i8, 1i8));
                let (e0, e1) = (-d0, -d1);
                if d0 == 0 || d1 == 0 {
                    let k = if e0 == 0 && e1 == 1 {
                        0
                    } else if e0 == 0 && e1 == -1 {
                        1
                    } else if e0 == 1 {
                        2
                    } else {
                        3
                    };
                    lemma_rays_hit_at(g, r, c, rd, 4, k, cp.owner, PieceTypes::Rook, PieceTypes::Queen);
                } else {
                    let k = if e0 == 1 && e1 == 1 {
                        0
                    } else if e0 == -1 && e1 == -1 {
                        1
                    } else if e0 == 1 {
                        2
                    } else {
                        3
                    };
                    lemma_rays_hit_at(g, r, c, bd, 4, k, cp.owner, PieceTypes::Bishop, PieceTypes::Queen);
                }
            },
            None => {},
        },
        _ => {},
    }
}

proof fn lemma_slide_sees(g: GameModel, piece: Piece, start: Position, dirs: Seq<(i8, i8)>, n: int)
    requires
        g.wf(),
        start.inv(),
        g.piece_at(start) == Some(piece),
        piece.owner == g.current,
        n <= dirs.len(),
        forall|k: int|
            0 <= k < dirs.len() ==> {
                &&& -1 <= (#[trigger] dirs[k]).0 <= 1
                &&& -1 <= dirs[k].1 <= 1
                &&& (dirs[k].0 != 0 || dirs[k].1 != 0)
                &&& (dirs[k].0 == 0 || dirs[k].1 == 0 ==> piece.piece_type == PieceTypes::Rook
                    || piece.piece_type == PieceTypes::Queen)
                &&& (dirs[k].0 != 0 && dirs[k].1 != 0 ==> piece.piece_type == PieceTypes::Bishop
                    || piece.piece_type == PieceTypes::Queen)
            },
    ensures
        all_seen(g, slide_moves(g, piece, start, dirs, n)),
    decreases n,
{
    if n > 0 {
        lemma_slide_sees(g, piece, start, dirs, n - 1);
        let d = dirs[n - 1];
        let (d0, d1) = (d.0 as int, d.1 as int);
        let sr = start.spec_row() as int;
        let sc = start.spec_col() as int;
        Position::lemma_inv(start);
        lemma_at_idx(sr, sc);
        Position::lemma_at(sr, sc);
        Position::lemma_eq(start, Position::at(sr, sc));
        let rays = ray_moves(g, piece, start, sr + d0, sc + d1, d0, d1, 8);
        let other = g.current.spec_the_other();
        if d0 == 0 || d1 == 0 {
            assert(crate::movegen::ray_hits(g, sr, sc, -d0, -d1, 1, other, PieceTypes::Rook, PieceTypes::Queen));
            lemma_ray_sees(g, piece, start, sr + d0, sc + d1, d0, d1, 8, 1, PieceTypes::Rook, PieceTypes::Queen);
        } else {
            assert(crate::movegen::ray_hits(g, sr, sc, -d0, -d1, 1, other, PieceTypes::Bishop, PieceTypes::Queen));
            lemma_ray_sees(g, piece, start, sr + d0, sc + d1, d0, d1, 8, 1, PieceTypes::Bishop, PieceTypes::Queen);
        }
        assert forall|i: int| 0 <= i < rays.len() implies sees_capture(g, #[trigger] rays[i]) by {
            lemma_ray_seen_attacked(g, rays[i], d0, d1);
        }
        lemma_all_seen_concat(g, slide_moves(g, piece, start, dirs, n - 1), rays);
    }
}

proof fn lemma_step_hits_at(
    g: GameModel,
    r: int,
    c: int,
    steps: Seq<(i8, i8)>,
    n: int,
    k: int,
    player: Players,
    t: PieceTypes,
)
    requires
        0 <= k < n,
        crate::movegen::enemy_on(g, r + steps[k].0, c + steps[k].1, player, t),
    ensures
        crate::movegen::step_hits(g, r, c, steps, n, player, t),
    decreases n,
{
    if k < n - 1 {
        lemma_step_hits_at(g, r, c, steps, n - 1, k, player, t);
    }
}

proof fn lemma_knight_sees(g: GameModel, piece: Piece, start: Position, n: int)
    requires
        g.wf(),
        start.inv(),
        g.piece_at(start) == Some(piece),
        piece.owner == g.current,
        piece.piece_type == PieceTypes::Knight,
        n <= 8,
    ensures
        all_seen(g, knight_moves(g, piece, start, n)),
    decreases n,
{
    if n > 0 {
        lemma_knight_sees(g, piece, start, n - 1);
        let ks = knight_steps();
        let j = n - 1;
        let d = ks[j];
        let sr = start.spec_row() as int;
        let sc = start.spec_col() as int;
        let (r, c) = (sr + d.0, sc + d.1);
        let step = knight_step(g, piece, start, r, c);
        Position::lemma_inv(start);
        lemma_at_idx(sr, sc);
        if on_board(r, c) {
            Position::lemma_at(r, c);
            match at(g, r, c) {
                Some(p) => if p.owner != g.current && p.piece_type == PieceTypes::King {
                    reveal(crate::movegen::attacked);
                    let k = if j == 0 {
                        2
                    } else if j == 1 {
                        3
                    } else if j == 2 {
                        0
                    } else if j == 3 {
                        1
                    } else if j == 4 {
                        6
                    } else if j == 5 {
                        7
                    } else if j == 6 {
                        4
                    } else {
                        5
                    };
                    assert(ks[k].0 == -d.0 && ks[k].1 == -d.1);
                    lemma_step_hits_at(g, r, c, ks, 8, k, p.owner, PieceTypes::Knight);
                },
                None => {},
            }
        }
        lemma_all_seen_concat(g, knight_moves(g, piece, start, n - 1), step);
    }
}

proof fn lemma_king_steps_sees(g: GameModel, piece: Piece, start: Position, n: int)
    requires
        g.consistent(),
        n <= 8,
    ensures
        all_seen(g, king_step_moves(g, piece, start, n)),
    decreases n,
{
    if n > 0 {
        lemma_king_steps_sees(g, piece, start, n - 1);
        let d = king_steps()[n - 1];
        let (r, c) = (start.spec_row() + d.0, start.spec_col() + d.1);
        let step = king_step(g, piece, start, r, c);
        let other = g.current.spec_the_other();
        if on_board(r, c) {
            lemma_at_idx(r, c);
            Position::lemma_at(r, c);
            match at(g, r, c) {
                Some(p) => if p.owner != g.current && p.piece_type == PieceTypes::King {
                    assert(p == king(other));
                    lemma_king_square(g, other, Position::at(r, c));
                },
                None => {},
            }
        }
        lemma_all_seen_concat(g, king_step_moves(g, piece, start, n - 1), step);
    }
}

proof fn lemma_pawn_capture_sees(g: GameModel, piece: Piece, start: Position, dc: int)
    requires
        g.wf(),
        start.inv(),
        g.piece_at(start) == Some(piece),
        piece.owner == g.current,
        piece.piece_type == PieceTypes::Pawn,
        dc == 1 || dc == -1,
    ensures
        all_seen(g, pawn_capture(g, piece, start, dc)),
{
    let d = pawn_dir(piece.owner);
    let sr = start.spec_row() as int;
    let sc = start.spec_col() as int;
    let (r, c) = (sr + d, sc + dc);
    Position::lemma_inv(start);
    lemma_at_idx(sr, sc);
    if on_board(r, c) {
        Position::lemma_at(r, c);
        match at(g, r, c) {
            Some(p) => if p.owner != piece.owner && p.piece_type == PieceTypes::King {
                reveal(crate::movegen::attacked);
                let steps = crate::movegen::pawn_attack_steps(p.owner);
                let k = if dc == -1 {
                    0
                } else {
                    1
                };
                assert(steps[k].0 == -d && steps[k].1 == -dc);
                lemma_step_hits_at(g, r, c, steps, 2, k, p.owner, PieceTypes::Pawn);
            },
            None => {},
        }
    }
}

proof fn lemma_piece_sees(g: GameModel, piece: Piece, start: Position)
    requires
        g.consistent(),
        start.inv(),
        g.piece_at(start) == Some(piece),
        piece.owner == g.current,
    ensures
        all_seen(g, piece_moves(g, piece, start)),
{
    assert(rook_dirs()[0] == (0i8, 1i8) && rook_dirs()[1] == (0i8, -1i8) && rook_dirs()[2] == (
    1i8, 0i8) && rook_dirs()[3] == (-1i8, 0i8));
    assert(bishop_dirs()[0] == (1i8, 1i8) && bishop_dirs()[1] == (-1i8, -1i8) && bishop_dirs()[2]
        == (1i8, -1i8) && bishop_dirs()[3] == (-1i8, 1i8));
    match piece.piece_type {
        PieceTypes::Pawn => {
            lemma_pawn_capture_sees(g, piece, start, 1);
            lemma_pawn_capture_sees(g, piece, start, -1);
            let a = pawn_double(g, piece, start);
            let b = pawn_single(g, piece, start);
            let e = pawn_en_passant(g, piece, start);
            assert(all_seen(g, a));
            assert(all_seen(g, b));
            assert(all_seen(g, e));
            lemma_all_seen_concat(g, a, b);
            lemma_all_seen_concat(g, a + b, pawn_capture(g, piece, start, 1));
            lemma_all_seen_concat(g, a + b + pawn_capture(g, piece, start, 1), pawn_capture(g, piece, start, -1));
            lemma_all_seen_concat(
                g,
                a + b + pawn_capture(g, piece, start, 1) + pawn_capture(g, piece, start, -1),
                e,
            );
        },
        PieceTypes::King => {
            lemma_king_steps_sees(g, piece, start, 8);
            lemma_all_seen_concat(g, king_step_moves(g, piece, start, 8), short_castling(g));
            lemma_all_seen_concat(g, king_step_moves(g, piece, start, 8) + short_castling(g), long_castling(g));
        },
        PieceTypes::Knight => lemma_knight_sees(g, piece, start, 8),
        PieceTypes::Rook => lemma_slide_sees(g, piece, start, rook_dirs(), 4),
        PieceTypes::Bishop => lemma_slide_sees(g, piece, start, bishop_dirs(), 4),
        PieceTypes::Queen => {
            assert forall|k: int| 0 <= k < queen_dirs().len() implies (#[trigger] queen_dirs()[k]
                == rook_dirs()[k] && k < 4) || (queen_dirs()[k] == bishop_dirs()[k - 4] && k >= 4) by {
            }
            lemma_slide_sees(g, piece, start, queen_dirs(), 8)
        },
    }
}

proof fn lemma_board_sees(g: GameModel, n: int)
    requires
        g.consistent(),
        n <= 64,
    ensures
        all_seen(g, board_moves(g, n)),
    decreases n,
{
    if n > 0 {
        lemma_board_sees(g, n - 1);
        let i = n - 1;
        let r = i / 8;
        let c = i % 8;
        assert(0 <= r < 8 && 0 <= c < 8 && r * 8 + c == i) by (nonlinear_arith)
            requires
                0 <= i < 64,
                r == i / 8,
                c == i % 8,
        ;
        lemma_at_idx(r, c);
        match g.board[i] {
            Some(p) => if p.owner == g.current {
                lemma_piece_sees(g, p, Position::at(r, c));
                lemma_all_seen_concat(g, board_moves(g, n - 1), piece_moves(g, p, Position::at(r, c)));
            } else {
                lemma_all_seen_concat(g, board_moves(g, n - 1), seq![]);
            },
            None => lemma_all_seen_concat(g, board_moves(g, n - 1), seq![]),
        }
    }
}

/// In a game that play can reach, a move that the generator makes can take the other
/// side's king only where that king is attacked.
pub proof fn lemma_king_taken_only_when_attacked(g: GameModel, m: Move)
    requires
        g.consistent(),
        pseudo_moves(g).contains(m),
        takes_king(m),
    ensures
        crate::movegen::attacked(
            g,
            g.king_of(g.current.spec_the_other()),
            g.current.spec_the_other(),
        ),
{
    lemma_board_sees(g, 64);
    lemma_pseudo_made(g);
    let i = choose|i: int| 0 <= i < pseudo_moves(g).len() && pseudo_moves(g)[i] == m;
    assert(sees_capture(g, pseudo_moves(g)[i]));
    assert(g.well_made(pseudo_moves(g)[i]));
    let other = g.current.spec_the_other();
    match m {
        Move::Normal { end, captured_piece, .. } => {
            assert(captured_piece == Some(king(other)));
            lemma_king_square(g, other, end);
        },
        Move::Promotion { end, captured_piece, .. } => {
            assert(captured_piece == Some(king(other)));
            lemma_king_square(g, other, end);
        },
        _ => {},
    }
}

// ---------------------------------------------------------------------------------------
// Kings stay in place through any legal play

/// The game after the moves `ms` are played in turn from `g`.
pub open spec fn played(g: GameModel, ms: Seq<Move>) -> GameModel
    decreases ms.len(),
{
    if ms.len() == 0 {
        g
    } else {
        played(g, ms.drop_last()).pushed(ms.last())
    }
}

/// A game that play can reach in which the side that has just moved is not in check.
pub open spec fn legal(g: GameModel) -> bool {
    &&& g.consistent()
    &&& !crate::movegen::attacked(
        g,
        g.king_of(g.current.spec_the_other()),
        g.current.spec_the_other(),
    )
}

/// Carries out `ops` on `g`: `Some(m)` plays `m`, `None` takes back the last move played
/// and not yet taken back. Gives the game and the moves played and not taken back.
pub open spec fn run(g: GameModel, ops: Seq<Option<Move>>) -> (GameModel, Seq<Move>)
    decreases ops.len(),
{
    if ops.len() == 0 {
        (g, seq![])
    } else {
        let (h, st) = run(g, ops.drop_last());
        match ops.last() {
            Some(m) => (h.pushed(m), st.push(m)),
            None => if st.len() > 0 {
                (h.popped(st.last()), st.drop_last())
            } else {
                (h, st)
            },
        }
    }
}

/// Each operation of `ops` is allowed where it comes: a move is one that `get_moves` keeps,
/// played with room on the state stack; a take-back has a move to take back.
pub open spec fn run_allowed(g: GameModel, ops: Seq<Option<Move>>) -> bool {
    forall|i: int|
        0 <= i < ops.len() ==> match #[trigger] ops[i] {
            Some(m) => run(g, ops.take(i)).0.states.len() < 512 && checked_moves(
                run(g, ops.take(i)).0,
            ).0.contains(m),
            None => run(g, ops.take(i)).1.len() > 0,
        }
}

proof fn lemma_popped_same(a: GameModel, b: GameModel, m: Move)
    requires
        same_position(a, b),
    ensures
        same_position(a.popped(m), b.popped(m)),
{
    reveal(GameModel::popped);
    reveal(GameModel::backward_board);
}

/// What holds of a game `h` reached from `g` with the moves `st` played and not taken back:
/// it holds the position of `g` after `st`, and each game on the way is legal.
pub open spec fn stack_invariant(g: GameModel, h: GameModel, st: Seq<Move>) -> bool {
    &&& h.wf()
    &&& h.states.len() == g.states.len() + st.len()
    &&& same_position(h, played(g, st))
    &&& forall|k: int|
        0 <= k <= st.len() ==> {
            &&& legal(#[trigger] played(g, st.take(k)))
            &&& played(g, st.take(k)).wf()
            &&& played(g, st.take(k)).states.len() == g.states.len() + k
        }
    &&& forall|k: int|
        0 <= k < st.len() ==> played(g, st.take(k)).well_made(#[trigger] st[k]) && st[k].wf()
}

proof fn lemma_run_push(g: GameModel, h: GameModel, st: Seq<Move>, m: Move)
    requires
        stack_invariant(g, h, st),
        h.states.len() < 512,
        checked_moves(h).0.contains(m),
    ensures
        stack_invariant(g, h.pushed(m), st.push(m)),
{
    let pp = played(g, st);
    assert(st.take(st.len() as int) =~= st);
    assert(legal(pp));
    assert(h.consistent());
    lemma_checked_made(h);
    crate::performance_test::lemma_checked_wf(h);
    let j = choose|j: int| 0 <= j < checked_moves(h).0.len() && checked_moves(h).0[j] == m;
    assert(h.well_made(checked_moves(h).0[j]));
    assert(m.wf());
    assert(pp.well_made(m));
    if takes_king(m) {
        lemma_checked_moves_generated(h);
        assert(pseudo_moves(h).contains(checked_moves(h).0[j]));
        lemma_king_taken_only_when_attacked(h, m);
        lemma_attacked_board(h, pp, h.king_of(h.current.spec_the_other()), h.current.spec_the_other());
    }
    lemma_move_keeps_consistent(pp, m);
    lemma_checked_moves_safe(h);
    lemma_pushed_same(h, pp, m);
    lemma_pushed_parts(pp, m);
    lemma_pushed_parts(h, m);
    lemma_attacked_board(h.pushed(m), pp.pushed(m), h.pushed(m).king_of(h.current), h.current);
    crate::game_laws::lemma_pushed_wf(pp, m);
    crate::game_laws::lemma_pushed_wf(h, m);
    let pm = pp.pushed(m);
    assert(!crate::movegen::attacked(h.pushed(m), h.pushed(m).king_of(h.current), h.current));
    assert(pm.current.spec_the_other() == pp.current);
    assert(legal(pm));
    let st2 = st.push(m);
    assert(st2.drop_last() =~= st);
    assert(played(g, st2) == pm);
    assert forall|k: int| 0 <= k <= st2.len() implies {
        &&& legal(#[trigger] played(g, st2.take(k)))
        &&& played(g, st2.take(k)).wf()
        &&& played(g, st2.take(k)).states.len() == g.states.len() + k
    } by {
        if k < st2.len() {
            assert(st2.take(k) =~= st.take(k));
        } else {
            assert(st2.take(k) =~= st2);
        }
    }
    assert forall|k: int| 0 <= k < st2.len() implies played(g, st2.take(k)).well_made(
        #[trigger] st2[k],
    ) && st2[k].wf() by {
        if k < st.len() {
            assert(st2.take(k) =~= st.take(k));
        } else {
            assert(st2.take(k) =~= st);
        }
    }
}

proof fn lemma_run_pop(g: GameModel, h: GameModel, st: Seq<Move>)
    requires
        g.wf(),
        stack_invariant(g, h, st),
        st.len() > 0,
    ensures
        stack_invariant(g, h.popped(st.last()), st.drop_last()),
{
    let pp = played(g, st);
    let m = st.last();
    let len = st.len() as int;
    let st2 = st.drop_last();
    assert(st.take(len - 1) =~= st2);
    assert(st.take(len) =~= st);
    let q = played(g, st2);
    assert(q.well_made(st[len - 1]));
    assert(pp == q.pushed(m));
    lemma_made_reversible(q, m);
    crate::game_laws::lemma_pop_undoes_push(q, m);
    lemma_popped_same(h, pp, m);
    crate::game_laws::lemma_popped_wf(h, m);
    assert forall|k: int| 0 <= k <= st2.len() implies {
        &&& legal(#[trigger] played(g, st2.take(k)))
        &&& played(g, st2.take(k)).wf()
        &&& played(g, st2.take(k)).states.len() == g.states.len() + k
    } by {
        assert(st2.take(k) =~= st.take(k));
    }
    assert forall|k: int| 0 <= k < st2.len() implies played(g, st2.take(k)).well_made(
        #[trigger] st2[k],
    ) && st2[k].wf() by {
        assert(st2.take(k) =~= st.take(k));
        assert(st2[k] == st[k]);
    }
}

proof fn lemma_run(g: GameModel, ops: Seq<Option<Move>>)
    requires
        g.wf(),
        legal(g),
        run_allowed(g, ops),
    ensures
        stack_invariant(g, run(g, ops).0, run(g, ops).1),
    decreases ops.len(),
{
    if ops.len() == 0 {
        assert forall|k: int| 0 <= k <= 0 implies Seq::<Move>::empty().take(k) =~= Seq::<Move>::empty() by {}
        assert(Seq::<Move>::empty().take(0) =~= Seq::<Move>::empty());
    } else {
        let n = ops.len() - 1;
        let prev = ops.drop_last();
        assert forall|i: int| 0 <= i < prev.len() implies match #[trigger] prev[i] {
            Some(m) => run(g, prev.take(i)).0.states.len() < 512 && checked_moves(
                run(g, prev.take(i)).0,
            ).0.contains(m),
            None => run(g, prev.take(i)).1.len() > 0,
        } by {
            assert(prev.take(i) =~= ops.take(i));
            assert(prev[i] == ops[i]);
        }
        lemma_run(g, prev);
        assert(ops.take(n) =~= prev);
        let (h, st) = run(g, prev);
        match ops[n] {
            Some(m) => lemma_run_push(g, h, st, m),
            None => lemma_run_pop(g, h, st),
        }
    }
}

/// From a game that play can reach, in which the side that has just moved is not in check,
/// any sequence of moves kept by `get_moves` and of take-backs of the last move keeps the
/// game one that play can reach: in particular each side's king stands on the square the
/// game records for it.
pub proof fn lemma_kings_stay_in_place(g: GameModel, ops: Seq<Option<Move>>)
    requires
        g.wf(),
        legal(g),
        run_allowed(g, ops),
    ensures
        run(g, ops).0.consistent(),
        run(g, ops).0.piece_at(run(g, ops).0.king_of(Players::White)) == Some(king(Players::White)),
        run(g, ops).0.piece_at(run(g, ops).0.king_of(Players::Black)) == Some(king(Players::Black)),
{
    lemma_run(g, ops);
    let h = run(g, ops).0;
    let st = run(g, ops).1;
    assert(st.take(st.len() as int) =~= st);
    let pp = played(g, st);
    assert(legal(pp));
    assert(same_position(h, pp));
    assert(h.consistent());
}

// ---------------------------------------------------------------------------------------
// Stalemate and mate

/// A side that has no move keeping its king safe is stalemated when its king is not
/// attacked, and the search scores that 0, a draw; when its king is attacked it is mated,
/// which scores as a loss, less bad the longer the game has gone on. One move deep, where
/// the king's safety is not tested, the same holds of a side with no move at all.
pub proof fn lemma_no_move_scores(
    g: GameModel,
    depth: u8,
    ply: u8,
    alpha: i16,
    beta: i16,
    killers: Seq<Option<Move>>,
    room: nat,
)
    requires
        g.consistent(),
        g.states.len() < 512,
        room > 0,
        depth >= 1,
        depth >= 2 ==> checked_moves(g).0.len() == 0,
        depth == 1 ==> capped(pseudo_moves(g)).len() == 0,
    ensures
        crate::search::search(g, depth, ply, alpha, beta, killers, room) is Some,
        crate::search::search(g, depth, ply, alpha, beta, killers, room)->Some_0.0 == 0
            <==> !crate::movegen::attacked(g, g.king_of(g.current), g.current),
        crate::movegen::attacked(g, g.king_of(g.current), g.current) ==> crate::search::search(
            g,
            depth,
            ply,
            alpha,
            beta,
            killers,
            room,
        )->Some_0.0 as int == i16::MIN + 100 + g.states.len(),
{
    if depth >= 2 {
        lemma_pseudo_made(g);
        crate::movegen::lemma_pseudo_wf(g);
        let ms = capped(pseudo_moves(g));
        let king = g.king_of(g.current);
        lemma_filter_exact(g, ms, ms.len() as int, g.current, king, crate::movegen::attacked(g, king, g.current));
        let g1 = checked_moves(g).1;
        assert(same_position(g1, g));
        lemma_attacked_board(g1, g, king, g.current);
    }
}

/// In the quiescence search, a side with no move at all that cannot stand on its score
/// (the score does not reach `beta`) gets 0, a draw, when its king stands on its square
/// unattacked, and the score of a loss otherwise.
pub proof fn lemma_quiescence_no_move_scores(g: GameModel, alpha: i16, beta: i16, room: nat)
    requires
        g.wf(),
        capped(pseudo_moves(g)).len() == 0,
        crate::search::side_score(g) is Some,
        crate::search::max_score(alpha, crate::search::side_score(g)->Some_0) < beta,
    ensures
        crate::search::quiescence(g, alpha, beta, room) is Some,
        crate::search::quiescence(g, alpha, beta, room)->Some_0.0 == 0 <==> g.king_present(
            g.current,
        ) && !crate::movegen::attacked(g, g.king_of(g.current), g.current),
        !(g.king_present(g.current) && !crate::movegen::attacked(g, g.king_of(g.current), g.current))
            ==> crate::search::quiescence(g, alpha, beta, room)->Some_0.0 as int == i16::MIN + 100
            + g.states.len(),
{
}

} // verus!
