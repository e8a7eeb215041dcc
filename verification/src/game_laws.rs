use vstd::prelude::*;

use crate::chess_game::{
    en_passant_row, en_passant_target_row, home_row, king, next_state, pawn, rook, GameModel,
    Players,
};
use crate::move_struct::Move;
use crate::piece::{place_value, PieceTypes};
use crate::position::{on_board, Position};
use crate::wrap::{crop16, lemma_crop_add, lemma_crop_id, lemma_wrapping};

verus! {

/// The sum of a sequence of scores.
pub open spec fn total(s: Seq<i16>) -> int
    decreases s.len(),
{
    if s.len() == 0 {
        0
    } else {
        total(s.drop_last()) + s.last()
    }
}

pub proof fn lemma_total_update(s: Seq<i16>, i: int, v: i16)
    requires
        0 <= i < s.len(),
    ensures
        total(s.update(i, v)) == total(s) - s[i] + v,
    decreases s.len(),
{
    if i == s.len() - 1 {
        assert(s.update(i, v).drop_last() =~= s.drop_last());
    } else {
        lemma_total_update(s.drop_last(), i, v);
        assert(s.update(i, v).drop_last() =~= s.drop_last().update(i, v));
    }
}

/// The square with index `i` in the row-major board.
pub open spec fn square_of(i: int) -> Position {
    Position::at(i / 8, i % 8)
}

pub proof fn lemma_square_of(p: Position)
    requires
        p.inv(),
    ensures
        square_of(p.idx()) == p,
{
    Position::lemma_idx(p, p);
    Position::lemma_inv(p);
    let i = p.idx();
    assert(i / 8 == p.spec_row() && i % 8 == p.spec_col()) by (nonlinear_arith)
        requires
            i == p.spec_row() * 8 + p.spec_col(),
            0 <= p.spec_col() < 8,
            0 <= p.spec_row() < 8,
    ;
    Position::lemma_at(i / 8, i % 8);
    Position::lemma_eq(square_of(i), p);
}

pub proof fn lemma_at_idx(r: int, c: int)
    requires
        on_board(r, c),
    ensures
        Position::at(r, c).idx() == r * 8 + c,
        Position::at(r, c).inv(),
        square_of(r * 8 + c) == Position::at(r, c),
{
    Position::lemma_at(r, c);
    lemma_square_of(Position::at(r, c));
}

impl GameModel {
    /// The score less the sum of the square scores, as wrapping arithmetic sees it.
    /// Setting a square never changes it.
    pub open spec fn balance(self) -> int {
        crop16(self.score - total(self.past_scores))
    }

    /// Every square's recorded score is what its piece is worth under the current tables.
    pub open spec fn scores_consistent(self) -> bool {
        forall|i: int|
            0 <= i < 64 ==> #[trigger] self.past_scores[i] == place_value(
                self.tables,
                self.board[i],
                square_of(i),
            )
    }

    /// The recorded score of square `q` is what its piece is worth under the current tables.
    pub open spec fn agrees_at(self, q: Position) -> bool {
        self.past_scores[q.idx()] == place_value(self.tables, self.board[q.idx()], q)
    }

    /// The recorded scores of the squares that `m` changes agree with the tables.
    pub open spec fn scores_agree_for(self, m: Move) -> bool {
        match m {
            Move::Normal { start, end, .. } => self.agrees_at(start) && self.agrees_at(end),
            Move::Promotion { start, end, .. } => self.agrees_at(start) && self.agrees_at(end),
            Move::EnPassant { owner, start_col, end_col } => {
                &&& self.agrees_at(Position::at(en_passant_row(owner), start_col as int))
                &&& self.agrees_at(Position::at(en_passant_row(owner), end_col as int))
                &&& self.agrees_at(Position::at(en_passant_target_row(owner), end_col as int))
            },
            Move::CastlingShort { owner } => {
                let r = home_row(owner);
                &&& self.agrees_at(Position::at(r, 4))
                &&& self.agrees_at(Position::at(r, 5))
                &&& self.agrees_at(Position::at(r, 6))
                &&& self.agrees_at(Position::at(r, 7))
            },
            Move::CastlingLong { owner } => {
                let r = home_row(owner);
                &&& self.agrees_at(Position::at(r, 0))
                &&& self.agrees_at(Position::at(r, 2))
                &&& self.agrees_at(Position::at(r, 3))
                &&& self.agrees_at(Position::at(r, 4))
            },
        }
    }

    /// The conditions under which taking back `m` after playing it restores the game:
    /// the pieces that `m` names stand where it says, its squares are distinct, and the
    /// king position of the moving side follows its king.
    pub open spec fn reversible(self, m: Move) -> bool {
        match m {
            Move::Normal { piece, start, end, captured_piece } => {
                &&& start != end
                &&& self.piece_at(start) == Some(piece)
                &&& self.piece_at(end) == captured_piece
                &&& piece.piece_type == PieceTypes::King ==> self.king_of(self.current) == start
            },
            Move::Promotion { owner, start, end, captured_piece, .. } => {
                &&& start != end
                &&& self.piece_at(start) == Some(pawn(owner))
                &&& self.piece_at(end) == captured_piece
            },
            Move::EnPassant { owner, start_col, end_col } => {
                &&& start_col != end_col
                &&& self.piece_at(Position::at(en_passant_row(owner), start_col as int)) == Some(
                    pawn(owner),
                )
                &&& self.piece_at(Position::at(en_passant_row(owner), end_col as int)) == Some(
                    pawn(owner.spec_the_other()),
                )
                &&& self.piece_at(Position::at(en_passant_target_row(owner), end_col as int))
                    is None
            },
            Move::CastlingLong { owner } => {
                &&& owner == self.current
                &&& self.king_of(owner) == Position::at(home_row(owner), 4)
                &&& self.piece_at(Position::at(home_row(owner), 4)) == Some(king(owner))
                &&& self.piece_at(Position::at(home_row(owner), 0)) == Some(rook(owner))
                &&& self.piece_at(Position::at(home_row(owner), 2)) is None
                &&& self.piece_at(Position::at(home_row(owner), 3)) is None
            },
            Move::CastlingShort { owner } => {
                &&& owner == self.current
                &&& self.king_of(owner) == Position::at(home_row(owner), 4)
                &&& self.piece_at(Position::at(home_row(owner), 4)) == Some(king(owner))
                &&& self.piece_at(Position::at(home_row(owner), 7)) == Some(rook(owner))
                &&& self.piece_at(Position::at(home_row(owner), 5)) is None
                &&& self.piece_at(Position::at(home_row(owner), 6)) is None
            },
        }
    }
}

proof fn lemma_set_square(g: GameModel, p: Position, place: Option<crate::piece::Piece>)
    requires
        g.wf(),
        p.inv(),
    ensures
        g.set_square(p, place).wf(),
        g.set_square(p, place).balance() == g.balance(),
        g.scores_consistent() ==> g.set_square(p, place).scores_consistent(),
{
    let g2 = g.set_square(p, place);
    let i = p.idx();
    Position::lemma_idx(p, p);
    let old = g.past_scores[i];
    let new = place_value(g.tables, place, p);
    lemma_total_update(g.past_scores, i, new);
    lemma_wrapping(g.score, old);
    lemma_wrapping(vstd::wrapping::i16_specs::wrapping_sub(g.score, old), new);
    lemma_crop_add(g.score - old, new as int);
    lemma_crop_add(g.score - old + new, -total(g2.past_scores));
    lemma_crop_add(g.score - total(g.past_scores), 0);
    assert(g2.score == crop16(g.score - old + new));
    lemma_crop_add(g.score - old + new, - total(g2.past_scores));
    assert(g2.balance() == crop16(g.score - old + new - total(g2.past_scores)));
    assert(g2.balance() == g.balance());
    if g.scores_consistent() {
        lemma_square_of(p);
        assert forall|j: int| 0 <= j < 64 implies #[trigger] g2.past_scores[j] == place_value(
            g2.tables,
            g2.board[j],
            square_of(j),
        ) by {
            if j != i {
                assert(g.past_scores[j] == place_value(g.tables, g.board[j], square_of(j)));
            }
        }
    }
}



/// The squares of an en passant capture are on the board, with the indices their rows and
/// columns give.
pub proof fn lemma_en_passant_squares(owner: Players, start_col: int, end_col: int)
    requires
        0 <= start_col < 8,
        0 <= end_col < 8,
    ensures
        Position::at(en_passant_row(owner), start_col).inv(),
        Position::at(en_passant_row(owner), end_col).inv(),
        Position::at(en_passant_target_row(owner), end_col).inv(),
        Position::at(en_passant_row(owner), start_col).idx() == en_passant_row(owner) * 8
            + start_col,
        Position::at(en_passant_row(owner), end_col).idx() == en_passant_row(owner) * 8 + end_col,
        Position::at(en_passant_target_row(owner), end_col).idx() == en_passant_target_row(owner)
            * 8 + end_col,
{
    lemma_at_idx(en_passant_row(owner), start_col);
    lemma_at_idx(en_passant_row(owner), end_col);
    lemma_at_idx(en_passant_target_row(owner), end_col);
}

/// The squares of a home row are on the board, with the indices their columns give.
pub proof fn lemma_home_squares(owner: Players)
    ensures
        forall|c: int| 0 <= c < 8 ==> (#[trigger] Position::at(home_row(owner), c)).inv(),
        forall|c: int|
            0 <= c < 8 ==> (#[trigger] Position::at(home_row(owner), c)).idx() == home_row(owner)
                * 8 + c,
{
    assert forall|c: int| 0 <= c < 8 implies (#[trigger] Position::at(home_row(owner), c)).inv()
        && Position::at(home_row(owner), c).idx() == home_row(owner) * 8 + c by {
        lemma_at_idx(home_row(owner), c);
    }
}

/// The squares a move names are on the board, and distinct squares have distinct indices.
pub proof fn lemma_move_squares(m: Move)
    requires
        m.wf(),
    ensures
        m is Normal ==> m->Normal_start.inv() && m->Normal_end.inv() && 0 <= m->Normal_start.idx()
            < 64 && 0 <= m->Normal_end.idx() < 64 && (m->Normal_start != m->Normal_end
            ==> m->Normal_start.idx() != m->Normal_end.idx()),
        m is Promotion ==> m->Promotion_start.inv() && m->Promotion_end.inv() && 0
            <= m->Promotion_start.idx() < 64 && 0 <= m->Promotion_end.idx() < 64 && (
        m->Promotion_start != m->Promotion_end ==> m->Promotion_start.idx()
            != m->Promotion_end.idx()),
{
    match m {
        Move::EnPassant { owner, start_col, end_col } => {
            lemma_en_passant_squares(owner, start_col as int, end_col as int);
        },
        Move::CastlingLong { owner } => {
            lemma_home_squares(owner);
        },
        Move::CastlingShort { owner } => {
            lemma_home_squares(owner);
        },
        Move::Normal { start, end, .. } => {
            Position::lemma_idx(start, end);
            Position::lemma_idx(end, start);
        },
        Move::Promotion { start, end, .. } => {
            Position::lemma_idx(start, end);
            Position::lemma_idx(end, start);
        },
    }
}

/// Playing the board part of a move keeps the game well formed, its balance, its score
/// consistency, and everything but the squares and scores.
pub proof fn lemma_forward_wf(g: GameModel, m: Move)
    requires
        g.wf(),
        m.wf(),
    ensures
        g.forward_board(m).wf(),
        g.forward_board(m).balance() == g.balance(),
        g.scores_consistent() ==> g.forward_board(m).scores_consistent(),
        g.forward_board(m).kings == g.kings,
        g.forward_board(m).states == g.states,
        g.forward_board(m).current == g.current,
        g.forward_board(m).tables == g.tables,
        g.forward_board(m).history == g.history,
        g.forward_board(m).phase == g.phase,
{
    reveal(GameModel::forward_board);
    lemma_move_squares(m);
    match m {
        Move::Normal { piece, start, end, .. } => {
            lemma_set_square(g, start, None);
            lemma_set_square(g.set_square(start, None), end, Some(piece));
        },
        Move::Promotion { owner, new_piece, start, end, .. } => {
            lemma_set_square(g, start, None);
            lemma_set_square(
                g.set_square(start, None),
                end,
                Some(crate::piece::Piece { piece_type: new_piece, owner }),
            );
        },
        Move::EnPassant { owner, start_col, end_col } => {
            lemma_en_passant_squares(owner, start_col as int, end_col as int);
            let a = Position::at(en_passant_row(owner), end_col as int);
            let b = Position::at(en_passant_row(owner), start_col as int);
            let c = Position::at(en_passant_target_row(owner), end_col as int);
            lemma_set_square(g, a, None);
            lemma_set_square(g.set_square(a, None), b, None);
            lemma_set_square(g.set_square(a, None).set_square(b, None), c, Some(pawn(owner)));
        },
        Move::CastlingLong { owner } => {
            lemma_home_squares(owner);
            let r = home_row(owner);
            let g1 = g.set_square(Position::at(r, 0), None);
            let g2 = g1.set_square(Position::at(r, 4), None);
            let g3 = g2.set_square(Position::at(r, 3), Some(rook(owner)));
            assert(Position::at(r, 0).inv() && Position::at(r, 4).inv() && Position::at(r, 3).inv()
                && Position::at(r, 2).inv());
            lemma_set_square(g, Position::at(r, 0), None);
            lemma_set_square(g1, Position::at(r, 4), None);
            lemma_set_square(g2, Position::at(r, 3), Some(rook(owner)));
            lemma_set_square(g3, Position::at(r, 2), Some(king(owner)));
        },
        Move::CastlingShort { owner } => {
            lemma_home_squares(owner);
            let r = home_row(owner);
            let g1 = g.set_square(Position::at(r, 7), None);
            let g2 = g1.set_square(Position::at(r, 4), None);
            let g3 = g2.set_square(Position::at(r, 5), Some(rook(owner)));
            assert(Position::at(r, 7).inv() && Position::at(r, 4).inv() && Position::at(r, 5).inv()
                && Position::at(r, 6).inv());
            lemma_set_square(g, Position::at(r, 7), None);
            lemma_set_square(g1, Position::at(r, 4), None);
            lemma_set_square(g2, Position::at(r, 5), Some(rook(owner)));
            lemma_set_square(g3, Position::at(r, 6), Some(king(owner)));
        },
    }
}

/// Taking back the board part of a move keeps the same things as playing it.
pub proof fn lemma_backward_wf(g: GameModel, m: Move)
    requires
        g.wf(),
        m.wf(),
    ensures
        g.backward_board(m).wf(),
        g.backward_board(m).balance() == g.balance(),
        g.scores_consistent() ==> g.backward_board(m).scores_consistent(),
        g.backward_board(m).kings == g.kings,
        g.backward_board(m).states == g.states,
        g.backward_board(m).current == g.current,
        g.backward_board(m).tables == g.tables,
        g.backward_board(m).history == g.history,
        g.backward_board(m).phase == g.phase,
{
    reveal(GameModel::backward_board);
    lemma_move_squares(m);
    match m {
        Move::Normal { piece, start, end, captured_piece } => {
            lemma_set_square(g, start, Some(piece));
            lemma_set_square(g.set_square(start, Some(piece)), end, captured_piece);
        },
        Move::Promotion { owner, start, end, captured_piece, .. } => {
            lemma_set_square(g, start, Some(pawn(owner)));
            lemma_set_square(g.set_square(start, Some(pawn(owner))), end, captured_piece);
        },
        Move::EnPassant { owner, start_col, end_col } => {
            lemma_en_passant_squares(owner, start_col as int, end_col as int);
            let c = Position::at(en_passant_target_row(owner), end_col as int);
            let a = Position::at(en_passant_row(owner), end_col as int);
            let b = Position::at(en_passant_row(owner), start_col as int);
            lemma_set_square(g, c, None);
            lemma_set_square(g.set_square(c, None), a, Some(pawn(owner.spec_the_other())));
            lemma_set_square(
                g.set_square(c, None).set_square(a, Some(pawn(owner.spec_the_other()))),
                b,
                Some(pawn(owner)),
            );
        },
        Move::CastlingLong { owner } => {
            lemma_home_squares(owner);
            let r = home_row(owner);
            let g1 = g.set_square(Position::at(r, 3), None);
            let g2 = g1.set_square(Position::at(r, 2), None);
            let g3 = g2.set_square(Position::at(r, 0), Some(rook(owner)));
            assert(Position::at(r, 0).inv() && Position::at(r, 4).inv() && Position::at(r, 3).inv()
                && Position::at(r, 2).inv());
            lemma_set_square(g, Position::at(r, 3), None);
            lemma_set_square(g1, Position::at(r, 2), None);
            lemma_set_square(g2, Position::at(r, 0), Some(rook(owner)));
            lemma_set_square(g3, Position::at(r, 4), Some(king(owner)));
        },
        Move::CastlingShort { owner } => {
            lemma_home_squares(owner);
            let r = home_row(owner);
            let g1 = g.set_square(Position::at(r, 5), None);
            let g2 = g1.set_square(Position::at(r, 6), None);
            let g3 = g2.set_square(Position::at(r, 7), Some(rook(owner)));
            assert(Position::at(r, 7).inv() && Position::at(r, 4).inv() && Position::at(r, 5).inv()
                && Position::at(r, 6).inv());
            lemma_set_square(g, Position::at(r, 5), None);
            lemma_set_square(g1, Position::at(r, 6), None);
            lemma_set_square(g2, Position::at(r, 7), Some(rook(owner)));
            lemma_set_square(g3, Position::at(r, 4), Some(king(owner)));
        },
    }
}

proof fn lemma_index_square(i: int)
    requires
        0 <= i < 64,
    ensures
        square_of(i).inv(),
        square_of(i).idx() == i,
{
    let r = i / 8;
    let c = i % 8;
    assert(0 <= r < 8 && 0 <= c < 8 && r * 8 + c == i) by (nonlinear_arith)
        requires
            0 <= i < 64,
            r == i / 8,
            c == i % 8,
    ;
    lemma_at_idx(r, c);
}

/// When every square's score agrees with the tables, so do the scores of the squares a move
/// changes.
proof fn lemma_consistent_agree(g: GameModel, m: Move)
    requires
        g.wf(),
        m.wf(),
        g.scores_consistent(),
    ensures
        g.scores_agree_for(m),
{
    lemma_move_squares(m);
    assert forall|q: Position| q.inv() implies #[trigger] g.agrees_at(q) by {
        lemma_square_of(q);
        Position::lemma_idx(q, q);
    }
    match m {
        Move::EnPassant { owner, start_col, end_col } => {
            lemma_en_passant_squares(owner, start_col as int, end_col as int);
        },
        Move::CastlingShort { owner } => {
            lemma_home_squares(owner);
            let r = home_row(owner);
            assert(Position::at(r, 4).inv() && Position::at(r, 5).inv() && Position::at(r, 6).inv()
                && Position::at(r, 7).inv());
        },
        Move::CastlingLong { owner } => {
            lemma_home_squares(owner);
            let r = home_row(owner);
            assert(Position::at(r, 0).inv() && Position::at(r, 2).inv() && Position::at(r, 3).inv()
                && Position::at(r, 4).inv());
        },
        _ => {},
    }
}

/// Taking back a move after playing it puts back the scores of the squares it changed, when
/// they agreed with the tables; the other squares' scores are never touched.
#[verifier::rlimit(60)]
proof fn lemma_scores_restored(g: GameModel, m: Move)
    requires
        g.wf(),
        m.wf(),
        g.reversible(m),
        g.scores_agree_for(m),
    ensures
        g.forward_board(m).backward_board(m).past_scores == g.past_scores,
{
    lemma_board_restored(g, m);
    lemma_forward_wf(g, m);
    lemma_backward_wf(g.forward_board(m), m);
    reveal(GameModel::forward_board);
    reveal(GameModel::backward_board);
    lemma_move_squares(m);
    let b = g.forward_board(m).backward_board(m);
    assert forall|i: int| 0 <= i < 64 implies #[trigger] b.past_scores[i] == g.past_scores[i] by {
        lemma_index_square(i);
        let q = square_of(i);
        match m {
            Move::Normal { start, end, .. } => {
                Position::lemma_idx(q, start);
                Position::lemma_idx(q, end);
            },
            Move::Promotion { start, end, .. } => {
                Position::lemma_idx(q, start);
                Position::lemma_idx(q, end);
            },
            Move::EnPassant { owner, start_col, end_col } => {
                lemma_en_passant_squares(owner, start_col as int, end_col as int);
                Position::lemma_idx(q, Position::at(en_passant_row(owner), start_col as int));
                Position::lemma_idx(q, Position::at(en_passant_row(owner), end_col as int));
                Position::lemma_idx(q, Position::at(en_passant_target_row(owner), end_col as int));
            },
            Move::CastlingShort { owner } => {
                lemma_home_squares(owner);
                let r = home_row(owner);
                Position::lemma_idx(q, Position::at(r, 4));
                Position::lemma_idx(q, Position::at(r, 5));
                Position::lemma_idx(q, Position::at(r, 6));
                Position::lemma_idx(q, Position::at(r, 7));
            },
            Move::CastlingLong { owner } => {
                lemma_home_squares(owner);
                let r = home_row(owner);
                Position::lemma_idx(q, Position::at(r, 0));
                Position::lemma_idx(q, Position::at(r, 2));
                Position::lemma_idx(q, Position::at(r, 3));
                Position::lemma_idx(q, Position::at(r, 4));
            },
        }
    }
    assert(b.past_scores =~= g.past_scores);
}

/// Taking back the board part of a move after playing it puts every piece back where it was.
#[verifier::rlimit(40)]
proof fn lemma_board_restored(g: GameModel, m: Move)
    requires
        g.wf(),
        m.wf(),
        g.reversible(m),
    ensures
        g.forward_board(m).backward_board(m).board == g.board,
        g.scores_consistent() ==> g.forward_board(m).backward_board(m).past_scores
            == g.past_scores,
{
    reveal(GameModel::forward_board);
    reveal(GameModel::backward_board);
    lemma_move_squares(m);
    lemma_forward_wf(g, m);
    let f = g.forward_board(m);
    lemma_backward_wf(f, m);
    let b = f.backward_board(m);
    match m {
        Move::Normal { start, end, .. } => {
            assert(b.board =~= g.board);
        },
        Move::Promotion { start, end, .. } => {
            assert(b.board =~= g.board);
        },
        Move::EnPassant { owner, start_col, end_col } => {
            lemma_en_passant_squares(owner, start_col as int, end_col as int);
            assert(b.board =~= g.board);
        },
        Move::CastlingLong { owner } => {
            lemma_home_squares(owner);
            let r = home_row(owner);
            assert(Position::at(r, 0).inv() && Position::at(r, 4).inv() && Position::at(r, 3).inv()
                && Position::at(r, 2).inv());
            assert(b.board =~= g.board);
        },
        Move::CastlingShort { owner } => {
            lemma_home_squares(owner);
            let r = home_row(owner);
            assert(Position::at(r, 7).inv() && Position::at(r, 4).inv() && Position::at(r, 5).inv()
                && Position::at(r, 6).inv());
            assert(b.board =~= g.board);
        },
    }
    if g.scores_consistent() {
        assert forall|i: int| 0 <= i < 64 implies #[trigger] b.past_scores[i] == g.past_scores[i] by {
            assert(b.past_scores[i] == place_value(b.tables, b.board[i], square_of(i)));
            assert(g.past_scores[i] == place_value(g.tables, g.board[i], square_of(i)));
        }
        assert(b.past_scores =~= g.past_scores);
    }
}

/// The board part of taking back a move depends on the squares, their scores, the score and
/// the tables alone.
proof fn lemma_backward_congruent(a: GameModel, b: GameModel, m: Move)
    requires
        a.board == b.board,
        a.past_scores == b.past_scores,
        a.score == b.score,
        a.tables == b.tables,
    ensures
        a.backward_board(m).board == b.backward_board(m).board,
        a.backward_board(m).past_scores == b.backward_board(m).past_scores,
        a.backward_board(m).score == b.backward_board(m).score,
{
    reveal(GameModel::backward_board);
}

/// Two scores with the same balance against the same square scores are equal.
proof fn lemma_balance_score(a: GameModel, b: GameModel)
    requires
        a.balance() == b.balance(),
        a.past_scores == b.past_scores,
    ensures
        a.score == b.score,
{
    let t = total(a.past_scores);
    lemma_crop_add(a.score - t, t);
    lemma_crop_add(b.score - t, t);
    lemma_crop_id(a.score as int);
    lemma_crop_id(b.score as int);
}

/// Taking back a move right after playing it restores the game: the board, the king
/// positions, the side to move and the state stack always, and the scores too when the
/// scores of the squares the move changes agree with the tables.
pub proof fn lemma_pop_undoes_push(g: GameModel, m: Move)
    requires
        g.wf(),
        g.states.len() < 512,
        m.wf(),
        g.reversible(m),
    ensures
        g.pushed(m).wf(),
        g.pushed(m).popped(m).board == g.board,
        g.pushed(m).popped(m).kings == g.kings,
        g.pushed(m).popped(m).current == g.current,
        g.pushed(m).popped(m).states == g.states,
        g.pushed(m).popped(m).balance() == g.balance(),
        g.scores_agree_for(m) ==> g.pushed(m).popped(m) == g,
        g.scores_consistent() ==> g.pushed(m).popped(m) == g,
{
    reveal(GameModel::pushed);
    reveal(GameModel::popped);
    lemma_move_squares(m);
    lemma_forward_wf(g, m);
    let f = g.forward_board(m);
    let p = g.pushed(m);
    match m {
        Move::CastlingLong { owner } => {
            lemma_home_squares(owner);
            assert(Position::at(home_row(owner), 2).inv());
        },
        Move::CastlingShort { owner } => {
            lemma_home_squares(owner);
            assert(Position::at(home_row(owner), 6).inv());
        },
        _ => {},
    }
    assert(p.wf());
    let q = GameModel { states: p.states.drop_last(), ..p.toggled() };
    assert(q.states =~= g.states);
    assert(q.current == g.current);
    lemma_backward_wf(q, m);
    lemma_board_restored(g, m);
    let fb = f.backward_board(m);
    let qb = q.backward_board(m);
    lemma_backward_congruent(q, f, m);
    assert(qb.board == fb.board);
    assert(qb.past_scores == fb.past_scores);
    let r = p.popped(m);
    match m {
        Move::Normal { piece, start, .. } => {
            Position::lemma_inv(start);
            assert(r.kings =~= g.kings);
        },
        Move::CastlingLong { owner } => {
            lemma_home_squares(owner);
            assert(r.kings =~= g.kings);
        },
        Move::CastlingShort { owner } => {
            lemma_home_squares(owner);
            assert(r.kings =~= g.kings);
        },
        _ => {
            assert(r.kings =~= g.kings);
        },
    }
    if g.scores_consistent() {
        lemma_consistent_agree(g, m);
    }
    if g.scores_agree_for(m) {
        lemma_scores_restored(g, m);
        lemma_balance_score(r, g);
        assert(r =~= g);
    }
}

/// Taking back a last-level move right after playing it restores the board and the side to
/// move, and the scores too when the scores of the squares the move changes agree with the
/// tables.
pub proof fn lemma_pop_depth_1_undoes_push_depth_1(g: GameModel, m: Move)
    requires
        g.wf(),
        m.wf(),
        g.reversible(m),
    ensures
        g.pushed_depth_1(m).popped_depth_1(m).board == g.board,
        g.pushed_depth_1(m).popped_depth_1(m).current == g.current,
        g.pushed_depth_1(m).popped_depth_1(m).kings == g.kings,
        g.pushed_depth_1(m).popped_depth_1(m).states == g.states,
        g.scores_agree_for(m) ==> g.pushed_depth_1(m).popped_depth_1(m) == g,
        g.scores_consistent() ==> g.pushed_depth_1(m).popped_depth_1(m) == g,
{
    reveal(GameModel::pushed_depth_1);
    reveal(GameModel::popped_depth_1);
    lemma_forward_wf(g, m);
    let f = g.forward_board(m);
    let q = f.toggled().toggled();
    assert(q == f);
    lemma_backward_wf(f, m);
    lemma_board_restored(g, m);
    let r = g.pushed_depth_1(m).popped_depth_1(m);
    if g.scores_consistent() {
        lemma_consistent_agree(g, m);
    }
    if g.scores_agree_for(m) {
        lemma_scores_restored(g, m);
        lemma_balance_score(r, g);
        assert(r =~= g);
    }
}

/// Playing a move keeps the game well formed.
pub proof fn lemma_pushed_wf(g: GameModel, m: Move)
    requires
        g.wf(),
        g.states.len() < 512,
        m.wf(),
    ensures
        g.pushed(m).wf(),
        g.pushed(m).states == g.states.push(next_state(g.top_state(), m, g.current)),
{
    reveal(GameModel::pushed);
    lemma_move_squares(m);
    lemma_forward_wf(g, m);
    match m {
        Move::CastlingLong { owner } => {
            lemma_home_squares(owner);
        },
        Move::CastlingShort { owner } => {
            lemma_home_squares(owner);
        },
        _ => {},
    }
}

/// Taking back a move keeps the game well formed, as long as a state stays on the stack.
pub proof fn lemma_popped_wf(g: GameModel, m: Move)
    requires
        g.wf(),
        g.states.len() >= 2,
        m.wf(),
    ensures
        g.popped(m).wf(),
        g.popped(m).states == g.states.drop_last(),
{
    reveal(GameModel::popped);
    lemma_move_squares(m);
    let q = GameModel { states: g.states.drop_last(), ..g.toggled() };
    lemma_backward_wf(q, m);
    match m {
        Move::CastlingLong { owner } => {
            lemma_home_squares(owner);
        },
        Move::CastlingShort { owner } => {
            lemma_home_squares(owner);
        },
        _ => {},
    }
}
} // verus!
