use vstd::prelude::*;

use arrayvec::ArrayVec;

use crate::arrays::{
    move_items, moves_clear, moves_get, moves_len, moves_set, moves_truncate, state_items,
    states_clone, states_last, states_len, states_pop, states_push,
};
use crate::gamestate::GameState;
use crate::move_struct::{pgn_text, push_char, push_decimal, rank_char, rank_digit, uci_text, Move};
use crate::movegen::{
    all_wf, board_moves, capped, checked_moves, filter_moves, lemma_capped_concat,
    lemma_capped_short, lemma_filter_wf, lemma_pseudo_wf, piece_moves, pseudo_moves, attacked, bishop_dirs, enemy_on, king_attack_steps, knight_steps, lemma_rays_hit_mono, lemma_step_hits_mono,
    pawn_attack_steps, ray_hits,
    rays_hit, rook_dirs, step_hits,
};
use crate::piece::{place_value, tables_ok, tables_view, Piece, PieceTypes, Score, ScoreTables};
use crate::position::Position;
use crate::scores::{ENDGAME_THRESHOLD, KING_SCORES_END};

verus! {

#[derive(PartialEq, Eq, Structural, Clone, Copy, Debug, Hash)]
pub enum GamePhase {
    Opening,
    Endgame,
}

/// The two sides. White's pieces count positively in the score, Black's negatively.
#[derive(PartialEq, Eq, Structural, Clone, Copy, Debug, Hash)]
pub enum Players {
    White,
    Black,
}

impl Players {
    pub open spec fn spec_the_other(&self) -> Players {
        match self {
            Players::White => Players::Black,
            Players::Black => Players::White,
        }
    }

    /// `1` for White and `-1` for Black.
    pub open spec fn spec_sign(self) -> int {
        match self {
            Players::White => 1,
            Players::Black => -1,
        }
    }

    /// Position of the player in two-element arrays indexed by side.
    pub open spec fn spec_slot(self) -> int {
        match self {
            Players::White => 0,
            Players::Black => 1,
        }
    }

    #[verifier::when_used_as_spec(spec_the_other)]
    pub fn the_other(&self) -> (r: Self)
        ensures
            r == self.spec_the_other(),
    {
        match self {
            Self::White => Self::Black,
            Self::Black => Self::White,
        }
    }

    pub fn sign(&self) -> (r: i16)
        ensures
            r == self.spec_sign(),
    {
        match self {
            Self::White => 1,
            Self::Black => -1,
        }
    }
}

/// The row on which a side's king and rooks start.
pub open spec fn home_row(owner: Players) -> int {
    match owner {
        Players::White => 0,
        Players::Black => 7,
    }
}

/// The row from which a pawn of `owner` takes en passant.
pub open spec fn en_passant_row(owner: Players) -> int {
    match owner {
        Players::White => 4,
        Players::Black => 3,
    }
}

/// The row on which a pawn of `owner` lands after taking en passant.
pub open spec fn en_passant_target_row(owner: Players) -> int {
    match owner {
        Players::White => 5,
        Players::Black => 2,
    }
}

pub open spec fn is_square(p: Position, row: int, col: int) -> bool {
    p.spec_row() == row && p.spec_col() == col
}

pub open spec fn pawn(owner: Players) -> Piece {
    Piece { piece_type: PieceTypes::Pawn, owner }
}

pub open spec fn rook(owner: Players) -> Piece {
    Piece { piece_type: PieceTypes::Rook, owner }
}

pub open spec fn king(owner: Players) -> Piece {
    Piece { piece_type: PieceTypes::King, owner }
}

/// Castling rights without both rights of `player`.
pub open spec fn without_castling(s: GameState, player: Players) -> GameState {
    match player {
        Players::White => s.without_right(4).without_right(5),
        Players::Black => s.without_right(6).without_right(7),
    }
}

/// Castling rights after a rook leaves `square`: the right tied to that corner is lost.
pub open spec fn after_rook_left(s: GameState, square: Position) -> GameState {
    if is_square(square, 0, 0) {
        s.without_right(5)
    } else if is_square(square, 0, 7) {
        s.without_right(4)
    } else if is_square(square, 7, 0) {
        s.without_right(7)
    } else if is_square(square, 7, 7) {
        s.without_right(6)
    } else {
        s
    }
}

/// Castling rights after `captured` is taken on `square`: a rook taken on its own corner
/// takes its side's right with it.
pub open spec fn after_capture(s: GameState, captured: Option<Piece>, square: Position) -> GameState {
    match captured {
        Some(p) => if p.piece_type == PieceTypes::Rook {
            match p.owner {
                Players::White => if is_square(square, 0, 0) {
                    s.without_right(5)
                } else if is_square(square, 0, 7) {
                    s.without_right(4)
                } else {
                    s
                },
                Players::Black => if is_square(square, 7, 0) {
                    s.without_right(7)
                } else if is_square(square, 7, 7) {
                    s.without_right(6)
                } else {
                    s
                },
            }
        } else {
            s
        },
        None => s,
    }
}

/// The state that follows `s` when `player` plays `m`.
pub open spec fn next_state(s: GameState, m: Move, player: Players) -> GameState {
    let s0 = s.with_en_passant(8);
    match m {
        Move::Normal { piece, start, end, captured_piece } => {
            let s1 = if piece.piece_type == PieceTypes::King {
                without_castling(s0, player)
            } else if piece.piece_type == PieceTypes::Rook {
                after_rook_left(s0, start)
            } else {
                s0
            };
            let s2 = after_capture(s1, captured_piece, end);
            if piece.piece_type == PieceTypes::Pawn && (end.spec_row() - start.spec_row() == 2
                || end.spec_row() - start.spec_row() == -2) {
                s2.with_en_passant(start.spec_col())
            } else {
                s2
            }
        },
        Move::Promotion { end, captured_piece, .. } => after_capture(s0, captured_piece, end),
        Move::EnPassant { .. } => s0,
        Move::CastlingLong { .. } => without_castling(s0, player),
        Move::CastlingShort { .. } => without_castling(s0, player),
    }
}

/// The game as a mathematical value.
#[verifier::ext_equal]
pub struct GameModel {
    pub score: i16,
    pub current: Players,
    pub history: Seq<Move>,
    pub phase: GamePhase,
    /// The 64 squares, row-major from a1.
    pub board: Seq<Option<Piece>>,
    /// What each square added to the score when it was last set.
    pub past_scores: Seq<i16>,
    pub tables: Seq<Seq<i16>>,
    /// Where each side's king is believed to be (White first).
    pub kings: Seq<Position>,
    /// The stack of game states, the current one last.
    pub states: Seq<GameState>,
}

impl GameModel {
    pub open spec fn wf(self) -> bool {
        &&& self.board.len() == 64
        &&& self.past_scores.len() == 64
        &&& tables_ok(self.tables)
        &&& self.kings.len() == 2
        &&& self.kings[0].inv()
        &&& self.kings[1].inv()
        &&& 1 <= self.states.len() <= 512
    }

    pub open spec fn piece_at(self, p: Position) -> Option<Piece> {
        self.board[p.idx()]
    }

    pub open spec fn king_of(self, player: Players) -> Position {
        self.kings[player.spec_slot()]
    }

    /// The square where `player`'s king is recorded holds a king.
    pub open spec fn king_present(self, player: Players) -> bool {
        match self.piece_at(self.king_of(player)) {
            Some(p) => p.piece_type == PieceTypes::King,
            None => false,
        }
    }

    pub open spec fn top_state(self) -> GameState {
        self.states.last()
    }

    /// The game with `place` put on `p`, the square's score recomputed and the total adjusted.
    pub open spec fn set_square(self, p: Position, place: Option<Piece>) -> GameModel {
        let i = p.idx();
        let ps = place_value(self.tables, place, p);
        GameModel {
            board: self.board.update(i, place),
            past_scores: self.past_scores.update(i, ps),
            score: vstd::wrapping::i16_specs::wrapping_add(
                vstd::wrapping::i16_specs::wrapping_sub(self.score, self.past_scores[i]),
                ps,
            ),
            ..self
        }
    }

    pub open spec fn set_king(self, player: Players, p: Position) -> GameModel {
        GameModel { kings: self.kings.update(player.spec_slot(), p), ..self }
    }

    pub open spec fn toggled(self) -> GameModel {
        GameModel { current: self.current.spec_the_other(), ..self }
    }

    /// The squares changed by playing `m`, in the order the game changes them.
    #[verifier::opaque]
    pub open spec fn forward_board(self, m: Move) -> GameModel {
        match m {
            Move::Normal { piece, start, end, .. } => self.set_square(start, None).set_square(
                end,
                Some(piece),
            ),
            Move::Promotion { owner, new_piece, start, end, .. } => self.set_square(
                start,
                None,
            ).set_square(end, Some(Piece { piece_type: new_piece, owner })),
            Move::EnPassant { owner, start_col, end_col } => self.set_square(
                Position::at(en_passant_row(owner), end_col as int),
                None,
            ).set_square(Position::at(en_passant_row(owner), start_col as int), None).set_square(
                Position::at(en_passant_target_row(owner), end_col as int),
                Some(pawn(owner)),
            ),
            Move::CastlingLong { owner } => self.set_square(
                Position::at(home_row(owner), 0),
                None,
            ).set_square(Position::at(home_row(owner), 4), None).set_square(
                Position::at(home_row(owner), 3),
                Some(rook(owner)),
            ).set_square(Position::at(home_row(owner), 2), Some(king(owner))),
            Move::CastlingShort { owner } => self.set_square(
                Position::at(home_row(owner), 7),
                None,
            ).set_square(Position::at(home_row(owner), 4), None).set_square(
                Position::at(home_row(owner), 5),
                Some(rook(owner)),
            ).set_square(Position::at(home_row(owner), 6), Some(king(owner))),
        }
    }

    /// The squares changed by taking `m` back, in the order the game changes them.
    #[verifier::opaque]
    pub open spec fn backward_board(self, m: Move) -> GameModel {
        match m {
            Move::Normal { piece, start, end, captured_piece } => self.set_square(
                start,
                Some(piece),
            ).set_square(end, captured_piece),
            Move::Promotion { owner, start, end, captured_piece, .. } => self.set_square(
                start,
                Some(pawn(owner)),
            ).set_square(end, captured_piece),
            Move::EnPassant { owner, start_col, end_col } => self.set_square(
                Position::at(en_passant_target_row(owner), end_col as int),
                None,
            ).set_square(
                Position::at(en_passant_row(owner), end_col as int),
                Some(pawn(owner.spec_the_other())),
            ).set_square(
                Position::at(en_passant_row(owner), start_col as int),
                Some(pawn(owner)),
            ),
            Move::CastlingLong { owner } => self.set_square(
                Position::at(home_row(owner), 3),
                None,
            ).set_square(Position::at(home_row(owner), 2), None).set_square(
                Position::at(home_row(owner), 0),
                Some(rook(owner)),
            ).set_square(Position::at(home_row(owner), 4), Some(king(owner))),
            Move::CastlingShort { owner } => self.set_square(
                Position::at(home_row(owner), 5),
                None,
            ).set_square(Position::at(home_row(owner), 6), None).set_square(
                Position::at(home_row(owner), 7),
                Some(rook(owner)),
            ).set_square(Position::at(home_row(owner), 4), Some(king(owner))),
        }
    }

    /// The game after the side to move plays `m`.
    #[verifier::opaque]
    pub open spec fn pushed(self, m: Move) -> GameModel {
        let s = next_state(self.top_state(), m, self.current);
        let g = self.forward_board(m);
        let g = match m {
            Move::Normal { piece, end, .. } => if piece.piece_type == PieceTypes::King {
                g.set_king(self.current, end)
            } else {
                g
            },
            Move::CastlingLong { owner } => g.set_king(self.current, Position::at(home_row(owner), 2)),
            Move::CastlingShort { owner } => g.set_king(self.current, Position::at(home_row(owner), 6)),
            _ => g,
        };
        GameModel { states: g.states.push(s), ..g.toggled() }
    }

    /// The game after taking back `m`, the move that led to it.
    #[verifier::opaque]
    pub open spec fn popped(self, m: Move) -> GameModel {
        let g = GameModel { states: self.states.drop_last(), ..self.toggled() };
        let g = g.backward_board(m);
        match m {
            Move::Normal { piece, start, .. } => if piece.piece_type == PieceTypes::King {
                g.set_king(g.current, start)
            } else {
                g
            },
            Move::CastlingLong { owner } => g.set_king(owner, Position::at(home_row(owner), 4)),
            Move::CastlingShort { owner } => g.set_king(owner, Position::at(home_row(owner), 4)),
            _ => g,
        }
    }

    /// Playing `m` at the last level of a search: the board and the side to move change only.
    #[verifier::opaque]
    pub open spec fn pushed_depth_1(self, m: Move) -> GameModel {
        self.forward_board(m).toggled()
    }

    /// Taking back a move played by `pushed_depth_1`.
    #[verifier::opaque]
    pub open spec fn popped_depth_1(self, m: Move) -> GameModel {
        self.toggled().backward_board(m)
    }
}

pub struct ChessGame {
    pub score: Score,
    pub current_player: Players,
    pub move_stack: Vec<Move>,
    pub phase: GamePhase,
    pub board: [Option<Piece>; 64],
    pub past_scores: [Score; 64],
    /// The score tables in use; the king's table changes when the endgame starts.
    pub piece_scores: ScoreTables,
    pub king_positions: [Position; 2],
    pub state: ArrayVec<GameState, 512>,
}

impl View for ChessGame {
    type V = GameModel;

    open spec fn view(&self) -> GameModel {
        GameModel {
            score: self.score,
            current: self.current_player,
            history: self.move_stack@,
            phase: self.phase,
            board: self.board@,
            past_scores: self.past_scores@,
            tables: tables_view(self.piece_scores),
            kings: self.king_positions@,
            states: state_items(self.state),
        }
    }
}

impl Clone for ChessGame {
    fn clone(&self) -> (r: Self)
        ensures
            r@ == self@,
    {
        ChessGame {
            score: self.score,
            current_player: self.current_player,
            move_stack: self.move_stack.clone(),
            phase: self.phase,
            board: self.board,
            past_scores: self.past_scores,
            piece_scores: self.piece_scores,
            king_positions: self.king_positions,
            state: states_clone(&self.state),
        }
    }
}

fn clear_castling(state: &mut GameState, player: Players)
    ensures
        *final(state) == without_castling(*old(state), player),
{
    match player {
        Players::White => {
            state.set_white_king_castling_false();
            state.set_white_queen_castling_false();
        },
        Players::Black => {
            state.set_black_king_castling_false();
            state.set_black_queen_castling_false();
        },
    }
}

fn rook_left(state: &mut GameState, square: Position)
    ensures
        *final(state) == after_rook_left(*old(state), square),
{
    let (r, c) = (square.row(), square.col());
    if r == 0 && c == 0 {
        state.set_white_queen_castling_false();
    } else if r == 0 && c == 7 {
        state.set_white_king_castling_false();
    } else if r == 7 && c == 0 {
        state.set_black_queen_castling_false();
    } else if r == 7 && c == 7 {
        state.set_black_king_castling_false();
    }
}

fn rook_captured(state: &mut GameState, captured: Option<Piece>, square: Position)
    ensures
        *final(state) == after_capture(*old(state), captured, square),
{
    let (r, c) = (square.row(), square.col());
    if let Some(piece) = captured {
        if piece.piece_type == PieceTypes::Rook {
            match piece.owner {
                Players::White => {
                    if r == 0 && c == 0 {
                        state.set_white_queen_castling_false();
                    } else if r == 0 && c == 7 {
                        state.set_white_king_castling_false();
                    }
                },
                Players::Black => {
                    if r == 7 && c == 0 {
                        state.set_black_queen_castling_false();
                    } else if r == 7 && c == 7 {
                        state.set_black_king_castling_false();
                    }
                },
            }
        }
    }
}

impl ChessGame {
    pub open spec fn wf(&self) -> bool {
        self@.wf()
    }

    /// The square where `player`'s king is recorded holds a king.
    pub fn king_exists(&self, player: Players) -> (r: bool)
        requires
            self.wf(),
        ensures
            r == self@.king_present(player),
    {
        match self.get_position(self.get_king_position(player)) {
            Some(piece) => piece.piece_type == PieceTypes::King,
            None => false,
        }
    }

    /// The number of states on the stack: one more than the number of moves played.
    pub fn len(&self) -> (r: usize)
        ensures
            r == self@.states.len(),
    {
        states_len(&self.state)
    }

    pub fn get_position(&self, position: Position) -> (r: Option<Piece>)
        requires
            self.wf(),
        ensures
            r == self@.piece_at(position),
    {
        let i = position.as_usize();
        self.board[i]
    }

    fn set_position(&mut self, position: Position, new_place: Option<Piece>)
        requires
            old(self).wf(),
        ensures
            final(self)@ == old(self)@.set_square(position, new_place),
            final(self).wf(),
    {
        let i = position.as_usize();
        let old_score = self.past_scores[i];
        self.score = self.score.wrapping_sub(old_score);
        self.board[i] = new_place;
        let new_score = match new_place {
            Some(piece) => piece.score(position, &self.piece_scores),
            None => 0,
        };
        self.past_scores[i] = new_score;
        self.score = self.score.wrapping_add(new_score);
    }

    pub fn get_king_position(&self, player: Players) -> (r: Position)
        requires
            self.wf(),
        ensures
            r == self@.king_of(player),
    {
        match player {
            Players::White => self.king_positions[0],
            Players::Black => self.king_positions[1],
        }
    }

    fn set_king_position(&mut self, player: Players, position: Position)
        requires
            old(self).wf(),
        ensures
            final(self)@ == old(self)@.set_king(player, position),
            final(self).wf(),
    {
        proof {
            use_type_invariant(&position);
        }
        match player {
            Players::White => self.king_positions[0] = position,
            Players::Black => self.king_positions[1] = position,
        }
    }

    /// The current game state (castling rights and en passant column).
    pub fn state(&self) -> (r: &GameState)
        requires
            self.wf(),
        ensures
            *r == self@.top_state(),
    {
        states_last(&self.state).unwrap()
    }
}


/// The home row of `owner`'s king and rooks.
fn home_row_of(owner: Players) -> (r: i8)
    ensures
        r == home_row(owner),
{
    match owner {
        Players::White => 0,
        Players::Black => 7,
    }
}

/// The squares of an en passant capture by `owner`: where the pawn starts, where it lands
/// and where the taken pawn stands.
fn en_passant_squares(owner: Players, start_col: i8, end_col: i8) -> (r: (Position, Position, Position))
    requires
        0 <= start_col < 8,
        0 <= end_col < 8,
    ensures
        r.0 == Position::at(en_passant_row(owner), start_col as int),
        r.1 == Position::at(en_passant_target_row(owner), end_col as int),
        r.2 == Position::at(en_passant_row(owner), end_col as int),
{
    match owner {
        Players::White => (
            Position::new_assert(4, start_col),
            Position::new_assert(5, end_col),
            Position::new_assert(4, end_col),
        ),
        Players::Black => (
            Position::new_assert(3, start_col),
            Position::new_assert(2, end_col),
            Position::new_assert(3, end_col),
        ),
    }
}

/// The game state after `player` plays `m` from `state`.
fn following_state(state: GameState, m: Move, player: Players) -> (r: GameState)
    requires
        m.wf(),
    ensures
        r == next_state(state, m, player),
{
    let mut state = state;
    proof {
        GameState::lemma_en_passant_fits(state, 8);
    }
    state.set_en_passant(8);
    match m {
        Move::Normal { piece, start, end, captured_piece } => {
            if piece.piece_type == PieceTypes::King {
                clear_castling(&mut state, player);
            } else if piece.piece_type == PieceTypes::Rook {
                rook_left(&mut state, start);
            }
            rook_captured(&mut state, captured_piece, end);
            if piece.piece_type == PieceTypes::Pawn && (end.row() - start.row() == 2 || end.row()
                - start.row() == -2) {
                proof {
                    Position::lemma_inv(start);
                    GameState::lemma_en_passant_fits(state, start.spec_col());
                }
                state.set_en_passant(start.col());
            }
        },
        Move::Promotion { end, captured_piece, .. } => {
            rook_captured(&mut state, captured_piece, end);
        },
        Move::EnPassant { .. } => {},
        Move::CastlingLong { .. } => {
            clear_castling(&mut state, player);
        },
        Move::CastlingShort { .. } => {
            clear_castling(&mut state, player);
        },
    }
    state
}

impl ChessGame {
    /// Records `m` in the move history, updates the game phase, then plays `m`.
    pub fn push_history(&mut self, m: Move)
        requires
            old(self).wf(),
            old(self)@.states.len() < 512,
            m.wf(),
        ensures
            final(self).wf(),
            final(self)@ == (GameModel {
                history: old(self)@.history.push(m),
                ..old(self)@
            }).phase_updated().pushed(m),
    {
        self.move_stack.push(m);
        self.update_phase();
        self.push(m);
    }

    /// Takes back the last recorded move, if there is one, and gives it.
    pub fn pop_history(&mut self) -> (r: Option<Move>)
        requires
            old(self).wf(),
            old(self)@.history.len() > 0 ==> old(self)@.states.len() >= 2 && old(
                self,
            )@.history.last().wf(),
        ensures
            final(self).wf(),
            old(self)@.history.len() == 0 ==> r is None && final(self)@ == old(self)@,
            old(self)@.history.len() > 0 ==> r == Some(old(self)@.history.last()) && final(self)@
                == (GameModel { history: old(self)@.history.drop_last(), ..old(self)@ }).popped(
                old(self)@.history.last(),
            ),
    {
        let last = self.move_stack.pop();
        match last {
            Some(m) => {
                self.pop(m);
            },
            None => {},
        }
        last
    }

    /// Plays `m` on the board only: used at the last level of a search, where the castling
    /// rights, the en passant column and the king positions are not needed any more.
    pub fn push_depth_1(&mut self, m: Move)
        requires
            old(self).wf(),
            m.wf(),
        ensures
            final(self).wf(),
            final(self)@ == old(self)@.pushed_depth_1(m),
    {
        reveal(GameModel::pushed_depth_1);
        self.play_board(m);
        self.current_player = self.current_player.the_other();
    }

    /// The board changes of playing `m`.
    fn play_board(&mut self, m: Move)
        requires
            old(self).wf(),
            m.wf(),
        ensures
            final(self).wf(),
            final(self)@ == old(self)@.forward_board(m),
            final(self)@.states == old(self)@.states,
            final(self)@.kings == old(self)@.kings,
            final(self)@.current == old(self)@.current,
    {
        reveal(GameModel::forward_board);
        match m {
            Move::Normal { piece, start, end, .. } => {
                self.set_position(start, None);
                self.set_position(end, Some(piece));
            },
            Move::Promotion { owner, start, end, new_piece, .. } => {
                self.set_position(start, None);
                self.set_position(end, Some(Piece { owner, piece_type: new_piece }));
            },
            Move::EnPassant { owner, start_col, end_col } => {
                let (old_pawn, new_pawn, taken_pawn) = en_passant_squares(owner, start_col, end_col);
                self.set_position(taken_pawn, None);
                self.set_position(old_pawn, None);
                self.set_position(new_pawn, Some(Piece { piece_type: PieceTypes::Pawn, owner }));
            },
            Move::CastlingLong { owner } => {
                let row = home_row_of(owner);
                self.set_position(Position::new_assert(row, 0), None);
                self.set_position(Position::new_assert(row, 4), None);
                self.set_position(
                    Position::new_assert(row, 3),
                    Some(Piece { piece_type: PieceTypes::Rook, owner }),
                );
                self.set_position(
                    Position::new_assert(row, 2),
                    Some(Piece { piece_type: PieceTypes::King, owner }),
                );
            },
            Move::CastlingShort { owner } => {
                let row = home_row_of(owner);
                self.set_position(Position::new_assert(row, 7), None);
                self.set_position(Position::new_assert(row, 4), None);
                self.set_position(
                    Position::new_assert(row, 5),
                    Some(Piece { piece_type: PieceTypes::Rook, owner }),
                );
                self.set_position(
                    Position::new_assert(row, 6),
                    Some(Piece { piece_type: PieceTypes::King, owner }),
                );
            },
        }
    }

    /// Takes back a move played by `push_depth_1`.
    pub fn pop_depth_1(&mut self, m: Move)
        requires
            old(self).wf(),
            m.wf(),
        ensures
            final(self).wf(),
            final(self)@ == old(self)@.popped_depth_1(m),
    {
        reveal(GameModel::popped_depth_1);
        self.current_player = self.current_player.the_other();
        self.unplay_board(m);
    }

    /// The board changes of taking back `m`.
    fn unplay_board(&mut self, m: Move)
        requires
            old(self).wf(),
            m.wf(),
        ensures
            final(self).wf(),
            final(self)@ == old(self)@.backward_board(m),
            final(self)@.states == old(self)@.states,
            final(self)@.kings == old(self)@.kings,
            final(self)@.current == old(self)@.current,
    {
        reveal(GameModel::backward_board);
        match m {
            Move::Normal { piece, start, end, captured_piece } => {
                self.set_position(start, Some(piece));
                self.set_position(end, captured_piece);
            },
            Move::Promotion { owner, start, end, captured_piece, .. } => {
                self.set_position(start, Some(Piece { piece_type: PieceTypes::Pawn, owner }));
                self.set_position(end, captured_piece);
            },
            Move::EnPassant { owner, start_col, end_col } => {
                let (old_pawn, new_pawn, taken_pawn) = en_passant_squares(owner, start_col, end_col);
                self.set_position(new_pawn, None);
                self.set_position(
                    taken_pawn,
                    Some(Piece { piece_type: PieceTypes::Pawn, owner: owner.the_other() }),
                );
                self.set_position(old_pawn, Some(Piece { piece_type: PieceTypes::Pawn, owner }));
            },
            Move::CastlingLong { owner } => {
                let row = home_row_of(owner);
                self.set_position(Position::new_assert(row, 3), None);
                self.set_position(Position::new_assert(row, 2), None);
                self.set_position(
                    Position::new_assert(row, 0),
                    Some(Piece { piece_type: PieceTypes::Rook, owner }),
                );
                self.set_position(
                    Position::new_assert(row, 4),
                    Some(Piece { piece_type: PieceTypes::King, owner }),
                );
            },
            Move::CastlingShort { owner } => {
                let row = home_row_of(owner);
                self.set_position(Position::new_assert(row, 5), None);
                self.set_position(Position::new_assert(row, 6), None);
                self.set_position(
                    Position::new_assert(row, 7),
                    Some(Piece { piece_type: PieceTypes::Rook, owner }),
                );
                self.set_position(
                    Position::new_assert(row, 4),
                    Some(Piece { piece_type: PieceTypes::King, owner }),
                );
            },
        }
    }

    /// Plays `m` for the side to move: updates the board, the king positions and the score,
    /// pushes the next game state (castling rights and en passant column) and passes the turn.
    pub fn push(&mut self, m: Move)
        requires
            old(self).wf(),
            old(self)@.states.len() < 512,
            m.wf(),
        ensures
            final(self).wf(),
            final(self)@ == old(self)@.pushed(m),
    {
        reveal(GameModel::pushed);
        let player = self.current_player;
        let state = following_state(*self.state(), m, player);
        self.play_board(m);
        match m {
            Move::Normal { piece, end, .. } => {
                if piece.piece_type == PieceTypes::King {
                    self.set_king_position(player, end);
                }
            },
            Move::CastlingLong { owner } => {
                let row = home_row_of(owner);
                self.set_king_position(player, Position::new_assert(row, 2));
            },
            Move::CastlingShort { owner } => {
                let row = home_row_of(owner);
                self.set_king_position(player, Position::new_assert(row, 6));
            },
            _ => {},
        }
        self.current_player = player.the_other();
        states_push(&mut self.state, state);
    }

    /// Takes back `m`, the last move played: drops the top game state, gives the turn back and
    /// restores the squares and king position that `m` changed.
    pub fn pop(&mut self, m: Move)
        requires
            old(self).wf(),
            old(self)@.states.len() >= 2,
            m.wf(),
        ensures
            final(self).wf(),
            final(self)@ == old(self)@.popped(m),
    {
        reveal(GameModel::popped);
        let _ = states_pop(&mut self.state);
        self.current_player = self.current_player.the_other();
        self.unplay_board(m);
        match m {
            Move::Normal { piece, start, .. } => {
                if piece.piece_type == PieceTypes::King {
                    let player = self.current_player;
                    self.set_king_position(player, start);
                }
            },
            Move::CastlingLong { owner } => {
                let row = home_row_of(owner);
                self.set_king_position(owner, Position::new_assert(row, 4));
            },
            Move::CastlingShort { owner } => {
                let row = home_row_of(owner);
                self.set_king_position(owner, Position::new_assert(row, 4));
            },
            _ => {},
        }
    }
}


impl ChessGame {
    /// Whether `(row, col)` is on the board and holds an enemy of `player` of kind `t`.
    fn enemy_at(&self, row: i8, col: i8, player: Players, t: PieceTypes) -> (r: bool)
        requires
            self.wf(),
        ensures
            r == enemy_on(self@, row as int, col as int, player, t),
    {
        if 0 <= row && row < 8 && 0 <= col && col < 8 {
            let p = Position::new_assert(row, col);
            proof {
                Position::lemma_at(row as int, col as int);
            }
            match self.get_position(p) {
                Some(piece) => piece.owner != player && piece.piece_type == t,
                None => false,
            }
        } else {
            false
        }
    }

    /// Whether one of the first `n` steps leads from `(row, col)` to an enemy of kind `t`.
    fn step_attack(&self, row: i8, col: i8, steps: &[(i8, i8)], n: usize, player: Players, t: PieceTypes) -> (r: bool)
        requires
            self.wf(),
            n <= steps@.len(),
            0 <= row < 8,
            0 <= col < 8,
            forall|i: int| 0 <= i < steps@.len() ==> -2 <= #[trigger] steps@[i].0 <= 2 && -2 <= steps@[i].1 <= 2,
        ensures
            r == step_hits(self@, row as int, col as int, steps@, n as int, player, t),
    {
        let mut i: usize = 0;
        while i < n
            invariant
                self.wf(),
                i <= n,
                n <= steps@.len(),
                0 <= row < 8,
                0 <= col < 8,
                forall|j: int| 0 <= j < steps@.len() ==> -2 <= #[trigger] steps@[j].0 <= 2 && -2 <= steps@[j].1 <= 2,
                !step_hits(self@, row as int, col as int, steps@, i as int, player, t),
            decreases n - i,
        {
            let (dr, dc) = steps[i];
            if self.enemy_at(row + dr, col + dc, player, t) {
                proof {
                    lemma_step_hits_mono(self@, row as int, col as int, steps@, i + 1, n as int, player, t);
                }
                return true;
            }
            i += 1;
        }
        false
    }

    /// Sliding from `(row, col)` in direction `(dr, dc)`, whether the first piece met is an
    /// enemy of `player` of kind `t1` or `t2`.
    fn ray_attack(&self, row: i8, col: i8, dr: i8, dc: i8, player: Players, t1: PieceTypes, t2: PieceTypes) -> (r: bool)
        requires
            self.wf(),
            -1 <= row <= 8,
            -1 <= col <= 8,
            -1 <= dr <= 1,
            -1 <= dc <= 1,
        ensures
            r == ray_hits(self@, row as int, col as int, dr as int, dc as int, 8, player, t1, t2),
    {
        let mut r = row;
        let mut c = col;
        let mut n: u8 = 8;
        while n > 0 && 0 <= r && r < 8 && 0 <= c && c < 8
            invariant
                self.wf(),
                -1 <= r <= 8,
                -1 <= c <= 8,
                -1 <= dr <= 1,
                -1 <= dc <= 1,
                n <= 8,
                ray_hits(self@, row as int, col as int, dr as int, dc as int, 8, player, t1, t2)
                    == ray_hits(self@, r as int, c as int, dr as int, dc as int, n as nat, player, t1, t2),
            decreases n,
        {
            let p = Position::new_assert(r, c);
            proof {
                Position::lemma_at(r as int, c as int);
            }
            match self.get_position(p) {
                Some(piece) => {
                    return piece.owner != player && (piece.piece_type == t1 || piece.piece_type == t2);
                },
                None => {},
            }
            r = r + dr;
            c = c + dc;
            n = n - 1;
        }
        false
    }

    /// Whether one of the first `n` directions, slid from next to `(row, col)`, meets an
    /// enemy of kind `t1` or `t2` first.
    fn rays_attack(&self, row: i8, col: i8, dirs: &[(i8, i8)], n: usize, player: Players, t1: PieceTypes, t2: PieceTypes) -> (r: bool)
        requires
            self.wf(),
            n <= dirs@.len(),
            0 <= row < 8,
            0 <= col < 8,
            forall|i: int| 0 <= i < dirs@.len() ==> -1 <= #[trigger] dirs@[i].0 <= 1 && -1 <= dirs@[i].1 <= 1,
        ensures
            r == rays_hit(self@, row as int, col as int, dirs@, n as int, player, t1, t2),
    {
        let mut i: usize = 0;
        while i < n
            invariant
                self.wf(),
                i <= n,
                n <= dirs@.len(),
                0 <= row < 8,
                0 <= col < 8,
                forall|j: int| 0 <= j < dirs@.len() ==> -1 <= #[trigger] dirs@[j].0 <= 1 && -1 <= dirs@[j].1 <= 1,
                !rays_hit(self@, row as int, col as int, dirs@, i as int, player, t1, t2),
            decreases n - i,
        {
            let (dr, dc) = dirs[i];
            if self.ray_attack(row + dr, col + dc, dr, dc, player, t1, t2) {
                proof {
                    lemma_rays_hit_mono(self@, row as int, col as int, dirs@, i + 1, n as int, player, t1, t2);
                }
                return true;
            }
            i += 1;
        }
        false
    }

    /// Returns if player's position is targeted by enemy pieces: an enemy king or knight a
    /// step away, an enemy pawn diagonally in front, or an enemy rook, bishop or queen on a
    /// free line.
    pub fn is_targeted(&self, position: Position, player: Players) -> (r: bool)
        requires
            self.wf(),
        ensures
            r == attacked(self@, position, player),
    {
        reveal(attacked);
        let row = position.row();
        let col = position.col();
        let king_steps: [(i8, i8); 8] = [(1, 0), (0, 1), (-1, 0), (0, -1), (1, 1), (-1, 1), (1, -1), (-1, -1)];
        let knight: [(i8, i8); 8] = [(1, 2), (2, 1), (-1, -2), (-2, -1), (1, -2), (-2, 1), (-1, 2), (2, -1)];
        let pawns: [(i8, i8); 2] = match player {
            Players::White => [(1, 1), (1, -1)],
            Players::Black => [(-1, 1), (-1, -1)],
        };
        let lines: [(i8, i8); 4] = [(0, 1), (0, -1), (1, 0), (-1, 0)];
        let diagonals: [(i8, i8); 4] = [(1, 1), (-1, -1), (1, -1), (-1, 1)];
        proof {
            assert(king_steps@ =~= king_attack_steps());
            assert(knight@ =~= knight_steps());
            assert(pawns@ =~= pawn_attack_steps(player));
            assert(lines@ =~= rook_dirs());
            assert(diagonals@ =~= bishop_dirs());
        }
        self.step_attack(row, col, &king_steps, 8, player, PieceTypes::King)
            || self.step_attack(row, col, &knight, 8, player, PieceTypes::Knight)
            || self.step_attack(row, col, &pawns, 2, player, PieceTypes::Pawn)
            || self.rays_attack(row, col, &lines, 4, player, PieceTypes::Rook, PieceTypes::Queen)
            || self.rays_attack(row, col, &diagonals, 4, player, PieceTypes::Bishop, PieceTypes::Queen)
    }
}

impl ChessGame {
    /// Fills `moves` with the moves of the side to move (it is cleared first). The list is
    /// empty when the square where the side's king should be holds no king.
    ///
    /// With `verify_king`, moves that leave the own king attacked are removed: each move is
    /// played, the king's square tested and the move taken back; a plain move of a piece off
    /// the king's lines is kept untested when the king is not in check.
    pub fn get_moves(&mut self, moves: &mut ArrayVec<Move, 256>, verify_king: bool)
        requires
            old(self).wf(),
            verify_king ==> old(self)@.states.len() < 512,
        ensures
            final(self).wf(),
            final(self)@.states == old(self)@.states,
            !verify_king ==> move_items(*final(moves)) == capped(pseudo_moves(old(self)@))
                && final(self)@ == old(self)@,
            verify_king ==> move_items(*final(moves)) == checked_moves(old(self)@).0
                && final(self)@ == checked_moves(old(self)@).1,
            old(self)@.consistent() && old(self)@.scores_consistent() ==> final(self)@ == old(
                self,
            )@,
            verify_king && old(self)@.consistent() ==> move_items(*final(moves)) == capped(
                pseudo_moves(old(self)@),
            ).filter(crate::move_laws::safe_in(old(self)@)),
    {
        let ghost g = self@;
        moves_clear(moves);
        let player = self.current_player;
        let king_position = self.get_king_position(player);
        let king_place = self.get_position(king_position);
        let has_king = match king_place {
            Some(piece) => piece.piece_type == PieceTypes::King,
            None => false,
        };
        if has_king {
            self.collect_moves(moves);
        }
        proof {
            lemma_pseudo_wf(g);
            if !has_king {
                assert(pseudo_moves(g) =~= seq![]);
            }
            lemma_capped_short(seq![]);
        }
        if verify_king {
            self.keep_safe_moves(moves, king_position);
            proof {
                if g.consistent() {
                    crate::move_laws::lemma_checked_moves_exact(g);
                }
                if g.consistent() && g.scores_consistent() {
                    crate::move_laws::lemma_checked_moves_restore(g);
                }
            }
        }
    }

    /// Appends, square by square, the moves of every piece of the side to move.
    fn collect_moves(&self, moves: &mut ArrayVec<Move, 256>)
        requires
            self.wf(),
            move_items(*old(moves)) == Seq::<Move>::empty(),
        ensures
            move_items(*final(moves)) == capped(board_moves(self@, 64)),
    {
        let mut i: usize = 0;
        proof {
            lemma_capped_short(seq![]);
            assert(board_moves(self@, 0) =~= seq![]);
        }
        while i < 64
            invariant
                self.wf(),
                i <= 64,
                move_items(*moves) == capped(board_moves(self@, i as int)),
            decreases 64 - i,
        {
            let row = (i / 8) as i8;
            let col = (i % 8) as i8;
            let pos = Position::new_assert(row, col);
            proof {
                Position::lemma_at(row as int, col as int);
            }
            let ghost before = board_moves(self@, i as int);
            if let Some(piece) = self.get_position(pos) {
                if piece.owner == self.current_player {
                    piece.get_moves(moves, self, pos);
                    proof {
                        lemma_capped_concat(before, piece_moves(self@, piece, pos));
                    }
                } else {
                    proof {
                        assert(before + seq![] =~= before);
                    }
                }
            } else {
                proof {
                    assert(before + seq![] =~= before);
                }
            }
            i += 1;
        }
    }

    /// Removes the moves that leave the king of the side to move attacked, keeping the others
    /// in order.
    fn keep_safe_moves(&mut self, moves: &mut ArrayVec<Move, 256>, king_position: Position)
        requires
            old(self).wf(),
            old(self)@.states.len() < 512,
            all_wf(move_items(*old(moves))),
            king_position == old(self)@.king_of(old(self)@.current),
        ensures
            final(self).wf(),
            final(self)@.states == old(self)@.states,
            (move_items(*final(moves)), final(self)@) == filter_moves(
                old(self)@,
                move_items(*old(moves)),
                move_items(*old(moves)).len() as int,
                old(self)@.current,
                king_position,
                attacked(old(self)@, king_position, old(self)@.current),
            ),
    {
        let ghost g = self@;
        let ghost ms = move_items(*moves);
        let player = self.current_player;
        let is_king_targeted = self.is_targeted(king_position, player);
        let len = moves_len(moves);
        let mut keep_index: usize = 0;
        let mut index: usize = 0;
        while index < len
            invariant
                g.wf(),
                g.states.len() < 512,
                all_wf(ms),
                len == ms.len(),
                player == g.current,
                is_king_targeted == attacked(g, king_position, player),
                keep_index <= index <= len,
                move_items(*moves).len() == len,
                self.wf(),
                self@ == filter_moves(g, ms, index as int, player, king_position, is_king_targeted).1,
                keep_index == filter_moves(g, ms, index as int, player, king_position, is_king_targeted).0.len(),
                forall|j: int| 0 <= j < keep_index ==> move_items(*moves)[j] == filter_moves(
                    g, ms, index as int, player, king_position, is_king_targeted).0[j],
                forall|j: int| index <= j < len ==> move_items(*moves)[j] == ms[j],
            decreases len - index,
        {
            proof {
                lemma_filter_wf(g, ms, index as int, player, king_position, is_king_targeted);
                lemma_filter_wf(g, ms, index + 1, player, king_position, is_king_targeted);
            }
            let m = moves_get(moves, index);
            let mut quick = false;
            if !is_king_targeted {
                if let Move::Normal { start, .. } = m {
                    let delta_col = start.col() - king_position.col();
                    let delta_row = start.row() - king_position.row();
                    if delta_col != 0 && delta_row != 0 && delta_col != delta_row && delta_col != -delta_row {
                        quick = true;
                    }
                }
            }
            let keep = if quick {
                true
            } else {
                proof {
                    crate::game_laws::lemma_pushed_wf(self@, m);
                }
                self.push(m);
                let king = self.get_king_position(player);
                let safe = !self.is_targeted(king, player);
                self.pop(m);
                safe
            };
            if keep {
                moves_set(moves, keep_index, m);
                keep_index += 1;
            }
            index += 1;
        }
        moves_truncate(moves, keep_index);
        proof {
            lemma_filter_wf(g, ms, len as int, player, king_position, is_king_targeted);
            let kept = filter_moves(g, ms, len as int, player, king_position, is_king_targeted).0;
            assert(move_items(*moves) =~= kept);
        }
    }
}

/// The absolute value of a score that is not `i16::MIN`.
fn score_abs(s: i16) -> (r: u32)
    requires
        s > i16::MIN,
    ensures
        r == abs_int(s as int),
{
    if s < 0 {
        (-s) as u32
    } else {
        s as u32
    }
}

pub open spec fn abs_int(x: int) -> int {
    if x < 0 {
        -x
    } else {
        x
    }
}

impl GameModel {
    /// The total worth of the pieces on the first `n` squares, both sides counted positively.
    pub open spec fn material(self, n: int) -> int
        decreases n,
    {
        if n <= 0 {
            0
        } else {
            self.material(n - 1) + abs_int(
                place_value(self.tables, self.board[n - 1], Position::at((n - 1) / 8, (n - 1) % 8))
                    as int,
            )
        }
    }

    /// Whether so little material is left that the endgame has started.
    pub open spec fn in_endgame(self) -> bool {
        self.material(64) < 2 * ENDGAME_THRESHOLD
    }

    /// The game after the phase check: in the endgame the king's table changes to the
    /// endgame table and the phase becomes `Endgame`; otherwise nothing changes.
    pub open spec fn phase_updated(self) -> GameModel {
        if self.in_endgame() {
            GameModel {
                tables: self.tables.update(5, KING_SCORES_END@),
                phase: GamePhase::Endgame,
                ..self
            }
        } else {
            self
        }
    }
}

impl GameModel {
    /// The worth of the pieces of `p` on the first `n` squares, counted positively.
    pub open spec fn side_material(self, p: Players, n: int) -> int
        decreases n,
    {
        if n <= 0 {
            0
        } else {
            self.side_material(p, n - 1) + match self.board[n - 1] {
                Some(q) => if q.owner == p {
                    abs_int(
                        place_value(self.tables, self.board[n - 1], Position::at((n - 1) / 8, (n - 1) % 8))
                            as int,
                    )
                } else {
                    0
                },
                None => 0,
            }
        }
    }
}

/// The material count is what the two sides have together.
proof fn lemma_material_sides(g: GameModel, n: int)
    ensures
        g.material(n) == g.side_material(Players::White, n) + g.side_material(Players::Black, n),
    decreases n,
{
    if n > 0 {
        lemma_material_sides(g, n - 1);
    }
}

/// The endgame threshold is per side: the endgame starts exactly when the two sides
/// together have less than twice the threshold; so it has started when each side has less
/// than the threshold, and not while each side has at least the threshold.
pub proof fn lemma_endgame_threshold(g: GameModel)
    ensures
        g.in_endgame() <==> g.side_material(Players::White, 64) + g.side_material(Players::Black, 64)
            < 2 * ENDGAME_THRESHOLD,
        g.side_material(Players::White, 64) < ENDGAME_THRESHOLD && g.side_material(
            Players::Black,
            64,
        ) < ENDGAME_THRESHOLD ==> g.phase_updated().phase == GamePhase::Endgame,
        g.side_material(Players::White, 64) >= ENDGAME_THRESHOLD && g.side_material(
            Players::Black,
            64,
        ) >= ENDGAME_THRESHOLD ==> g.phase_updated() == g,
{
    lemma_material_sides(g, 64);
}

proof fn lemma_material_bound(g: GameModel, n: int)
    requires
        g.wf(),
        0 <= n <= 64,
    ensures
        0 <= g.material(n) <= n * 32768,
    decreases n,
{
    if n > 0 {
        lemma_material_bound(g, n - 1);
    }
}

impl ChessGame {
    fn is_endgame(&self) -> (r: bool)
        requires
            self.wf(),
        ensures
            r == self@.in_endgame(),
    {
        let mut total_piece_score: u32 = 0;
        let mut i: usize = 0;
        while i < 64
            invariant
                self.wf(),
                i <= 64,
                total_piece_score == self@.material(i as int),
            decreases 64 - i,
        {
            proof {
                lemma_material_bound(self@, i + 1);
            }
            let row = (i / 8) as i8;
            let col = (i % 8) as i8;
            let position = Position::new_assert(row, col);
            proof {
                Position::lemma_at(row as int, col as int);
            }
            if let Some(piece) = self.get_position(position) {
                let s = piece.score(position, &self.piece_scores);
                total_piece_score = total_piece_score + score_abs(s);
            }
            i += 1;
        }
        total_piece_score < 2 * ENDGAME_THRESHOLD
    }

    /// Switches to the endgame (king table and phase) when little enough material is left.
    pub fn update_phase(&mut self)
        requires
            old(self).wf(),
        ensures
            final(self).wf(),
            final(self)@ == old(self)@.phase_updated(),
    {
        if self.is_endgame() {
            self.piece_scores[5] = KING_SCORES_END;
            self.phase = GamePhase::Endgame;
            proof {
                assert(tables_view(self.piece_scores) =~= old(self)@.tables.update(5, KING_SCORES_END@));
            }
        }
    }
}

impl ChessGame {
    /// The moves played so far, in the PGN form of `pgn_text`.
    pub fn get_pgn(&self) -> (r: String)
        requires
            forall|i: int| 0 <= i < self@.history.len() ==> (#[trigger] self@.history[i]).writable(),
        ensures
            r@ == pgn_text(self@.history),
    {
        let mut s = String::new();
        let mut i: usize = 0;
        let n = self.move_stack.len();
        while i < n
            invariant
                n == self@.history.len(),
                i <= n,
                forall|j: int| 0 <= j < self@.history.len() ==> (#[trigger] self@.history[j]).writable(),
                s@ == pgn_text(self@.history.take(i as int)),
            decreases n - i,
        {
            proof {
                let next = self@.history.take(i + 1);
                assert(next.drop_last() =~= self@.history.take(i as int));
                assert(next.last() == self@.history[i as int]);
            }
            if i % 2 == 0 {
                push_decimal(&mut s, i / 2 + 1);
                push_char(&mut s, '.');
                push_char(&mut s, ' ');
            }
            let text = self.move_stack[i].pgn_notation();
            s.append(text.as_str());
            push_char(&mut s, ' ');
            i += 1;
        }
        assert(self@.history.take(n as int) =~= self@.history);
        s
    }
}

impl ChessGame {
    /// The moves played so far, in UCI notation, each followed by a space.
    pub fn get_uci(&self) -> (r: String)
        requires
            forall|i: int| 0 <= i < self@.history.len() ==> (#[trigger] self@.history[i]).writable(),
        ensures
            r@ == uci_text(self@.history),
    {
        let mut s = String::new();
        let mut i: usize = 0;
        let n = self.move_stack.len();
        while i < n
            invariant
                n == self@.history.len(),
                i <= n,
                forall|j: int| 0 <= j < self@.history.len() ==> (#[trigger] self@.history[j]).writable(),
                s@ == uci_text(self@.history.take(i as int)),
            decreases n - i,
        {
            proof {
                let next = self@.history.take(i + 1);
                assert(next.drop_last() =~= self@.history.take(i as int));
                assert(next.last() == self@.history[i as int]);
            }
            let text = self.move_stack[i].uci_notation();
            s.append(text.as_str());
            push_char(&mut s, ' ');
            i += 1;
        }
        assert(self@.history.take(n as int) =~= self@.history);
        s
    }
}

/// A square of the board diagram: the piece's symbol, or a space.
pub open spec fn cell_glyph(place: Option<Piece>) -> char {
    match place {
        Some(p) => p.spec_glyph(),
        None => ' ',
    }
}

/// The first `n` squares of row `r` in the diagram, each after a bar.
pub open spec fn diagram_cells(g: GameModel, r: int, n: int) -> Seq<char>
    decreases n,
{
    if n <= 0 {
        seq![]
    } else {
        diagram_cells(g, r, n - 1) + seq!['|', cell_glyph(g.board[r * 8 + n - 1])]
    }
}

/// The line of row `r`: its rank, a space, its squares, a closing bar.
pub open spec fn diagram_line(g: GameModel, r: int) -> Seq<char> {
    seq![rank_char(r), ' '] + diagram_cells(g, r, 8) + seq!['|', '\n']
}

/// The first `k` lines of the diagram, from the eighth rank down.
pub open spec fn diagram_lines(g: GameModel, k: int) -> Seq<char>
    decreases k,
{
    if k <= 0 {
        seq![]
    } else {
        diagram_lines(g, k - 1) + diagram_line(g, 8 - k)
    }
}

/// The board drawn as text: an empty line, one line per rank from the eighth down, and
/// the file letters.
pub open spec fn board_diagram(g: GameModel) -> Seq<char> {
    seq!['\n'] + diagram_lines(g, 8) + "\n   a b c d e f g h\n"@
}

impl ChessGame {
    /// The board drawn as text, White at the bottom.
    pub fn diagram(&self) -> (r: String)
        ensures
            r@ == board_diagram(self@),
    {
        let mut s = String::new();
        push_char(&mut s, '\n');
        let mut k: usize = 0;
        while k < 8
            invariant
                k <= 8,
                s@ == seq!['\n'] + diagram_lines(self@, k as int),
            decreases 8 - k,
        {
            let row: usize = 7 - k;
            let ghost base = s@;
            push_char(&mut s, rank_digit(row as i8));
            push_char(&mut s, ' ');
            let mut c: usize = 0;
            while c < 8
                invariant
                    c <= 8,
                    row < 8,
                    s@ == base + seq![rank_char(row as int), ' '] + diagram_cells(self@, row as int, c as int),
                decreases 8 - c,
            {
                let glyph = match self.board[row * 8 + c] {
                    Some(piece) => piece.as_char(),
                    None => ' ',
                };
                push_char(&mut s, '|');
                push_char(&mut s, glyph);
                c += 1;
            }
            push_char(&mut s, '|');
            push_char(&mut s, '\n');
            proof {
                assert(s@ =~= seq!['\n'] + diagram_lines(self@, k + 1));
            }
            k += 1;
        }
        proof {
            reveal_strlit("\n   a b c d e f g h\n");
        }
        s.append("\n   a b c d e f g h\n");
        s
    }
}

} // verus!
