use vstd::prelude::*;

use crate::chess_game::{home_row, GameModel, Players};
use crate::move_struct::Move;
use crate::piece::{Piece, PieceTypes};
use crate::position::{on_board, Position};

verus! {

// The moves a game generates and the squares a side attacks, as mathematical functions of
// the game. Moves come out in a fixed order: squares a1, b1, .., h8; for each piece its
// directions in a fixed order; along each direction nearer squares first.

/// The piece on `(row, col)`.
pub open spec fn at(g: GameModel, row: int, col: int) -> Option<Piece> {
    g.board[row * 8 + col]
}

pub open spec fn rook_dirs() -> Seq<(i8, i8)> {
    seq![(0i8, 1i8), (0i8, -1i8), (1i8, 0i8), (-1i8, 0i8)]
}

pub open spec fn bishop_dirs() -> Seq<(i8, i8)> {
    seq![(1i8, 1i8), (-1i8, -1i8), (1i8, -1i8), (-1i8, 1i8)]
}

pub open spec fn queen_dirs() -> Seq<(i8, i8)> {
    rook_dirs() + bishop_dirs()
}

/// The king's steps, in the order the move generator tries them.
pub open spec fn king_steps() -> Seq<(i8, i8)> {
    seq![
        (0i8, 1i8),
        (0i8, -1i8),
        (1i8, 0i8),
        (-1i8, 0i8),
        (1i8, 1i8),
        (1i8, -1i8),
        (-1i8, 1i8),
        (-1i8, -1i8),
    ]
}

/// The king's steps, in the order the attack test tries them.
pub open spec fn king_attack_steps() -> Seq<(i8, i8)> {
    seq![
        (1i8, 0i8),
        (0i8, 1i8),
        (-1i8, 0i8),
        (0i8, -1i8),
        (1i8, 1i8),
        (-1i8, 1i8),
        (1i8, -1i8),
        (-1i8, -1i8),
    ]
}

pub open spec fn knight_steps() -> Seq<(i8, i8)> {
    seq![
        (1i8, 2i8),
        (2i8, 1i8),
        (-1i8, -2i8),
        (-2i8, -1i8),
        (1i8, -2i8),
        (-2i8, 1i8),
        (-1i8, 2i8),
        (2i8, -1i8),
    ]
}

/// The diagonal steps from which an enemy pawn attacks a square of `player`.
pub open spec fn pawn_attack_steps(player: Players) -> Seq<(i8, i8)> {
    match player {
        Players::White => seq![(1i8, 1i8), (1i8, -1i8)],
        Players::Black => seq![(-1i8, 1i8), (-1i8, -1i8)],
    }
}

// ---------------------------------------------------------------------------------------
// Attacks

/// Whether the square `(row, col)` holds an enemy of `player` of kind `t`.
pub open spec fn enemy_on(g: GameModel, row: int, col: int, player: Players, t: PieceTypes) -> bool {
    on_board(row, col) && match at(g, row, col) {
        Some(p) => p.owner != player && p.piece_type == t,
        None => false,
    }
}

/// Whether one of the first `n` steps leads from `(row, col)` to an enemy of kind `t`.
pub open spec fn step_hits(
    g: GameModel,
    row: int,
    col: int,
    steps: Seq<(i8, i8)>,
    n: int,
    player: Players,
    t: PieceTypes,
) -> bool
    decreases n,
{
    if n <= 0 {
        false
    } else {
        step_hits(g, row, col, steps, n - 1, player, t) || enemy_on(
            g,
            row + steps[n - 1].0,
            col + steps[n - 1].1,
            player,
            t,
        )
    }
}

/// Sliding from `(row, col)` (inclusive) in direction `(dr, dc)` for at most `n` squares,
/// whether the first piece met is an enemy of `player` of kind `t1` or `t2`.
pub open spec fn ray_hits(
    g: GameModel,
    row: int,
    col: int,
    dr: int,
    dc: int,
    n: nat,
    player: Players,
    t1: PieceTypes,
    t2: PieceTypes,
) -> bool
    decreases n,
{
    if n == 0 || !on_board(row, col) {
        false
    } else {
        match at(g, row, col) {
            Some(p) => p.owner != player && (p.piece_type == t1 || p.piece_type == t2),
            None => ray_hits(g, row + dr, col + dc, dr, dc, (n - 1) as nat, player, t1, t2),
        }
    }
}

/// Whether one of the first `n` directions, slid from next to `(row, col)`, meets an enemy
/// of kind `t1` or `t2` first.
pub open spec fn rays_hit(
    g: GameModel,
    row: int,
    col: int,
    dirs: Seq<(i8, i8)>,
    n: int,
    player: Players,
    t1: PieceTypes,
    t2: PieceTypes,
) -> bool
    decreases n,
{
    if n <= 0 {
        false
    } else {
        rays_hit(g, row, col, dirs, n - 1, player, t1, t2) || ray_hits(
            g,
            row + dirs[n - 1].0,
            col + dirs[n - 1].1,
            dirs[n - 1].0 as int,
            dirs[n - 1].1 as int,
            8,
            player,
            t1,
            t2,
        )
    }
}

/// A hit among the first `i` steps is a hit among the first `j >= i`.
pub proof fn lemma_step_hits_mono(
    g: GameModel,
    row: int,
    col: int,
    steps: Seq<(i8, i8)>,
    i: int,
    j: int,
    player: Players,
    t: PieceTypes,
)
    requires
        i <= j,
        step_hits(g, row, col, steps, i, player, t),
    ensures
        step_hits(g, row, col, steps, j, player, t),
    decreases j - i,
{
    if i < j {
        lemma_step_hits_mono(g, row, col, steps, i, j - 1, player, t);
    }
}

/// A hit along the first `i` directions is a hit along the first `j >= i`.
pub proof fn lemma_rays_hit_mono(
    g: GameModel,
    row: int,
    col: int,
    dirs: Seq<(i8, i8)>,
    i: int,
    j: int,
    player: Players,
    t1: PieceTypes,
    t2: PieceTypes,
)
    requires
        i <= j,
        rays_hit(g, row, col, dirs, i, player, t1, t2),
    ensures
        rays_hit(g, row, col, dirs, j, player, t1, t2),
    decreases j - i,
{
    if i < j {
        lemma_rays_hit_mono(g, row, col, dirs, i, j - 1, player, t1, t2);
    }
}

/// Whether the square `pos` of `player` is attacked by an enemy king, knight, pawn, or by a
/// rook, bishop or queen along a free line.
#[verifier::opaque]
pub open spec fn attacked(g: GameModel, pos: Position, player: Players) -> bool {
    let r = pos.spec_row() as int;
    let c = pos.spec_col() as int;
    ||| step_hits(g, r, c, king_attack_steps(), 8, player, PieceTypes::King)
    ||| step_hits(g, r, c, knight_steps(), 8, player, PieceTypes::Knight)
    ||| step_hits(g, r, c, pawn_attack_steps(player), 2, player, PieceTypes::Pawn)
    ||| rays_hit(g, r, c, rook_dirs(), 4, player, PieceTypes::Rook, PieceTypes::Queen)
    ||| rays_hit(g, r, c, bishop_dirs(), 4, player, PieceTypes::Bishop, PieceTypes::Queen)
}

// ---------------------------------------------------------------------------------------
// Moves

pub open spec fn normal(piece: Piece, start: Position, row: int, col: int, captured: Option<
    Piece,
>) -> Move {
    Move::Normal { piece, start, end: Position::at(row, col), captured_piece: captured }
}

/// Sliding `piece` from `start` through `(row, col)` onwards in direction `(dr, dc)` for at
/// most `n` squares: every empty square, then the first occupied one if it holds an enemy.
pub open spec fn ray_moves(
    g: GameModel,
    piece: Piece,
    start: Position,
    row: int,
    col: int,
    dr: int,
    dc: int,
    n: nat,
) -> Seq<Move>
    decreases n,
{
    if n == 0 || !on_board(row, col) {
        seq![]
    } else {
        match at(g, row, col) {
            Some(p) => if p.owner != g.current {
                seq![normal(piece, start, row, col, Some(p))]
            } else {
                seq![]
            },
            None => seq![normal(piece, start, row, col, None)] + ray_moves(
                g,
                piece,
                start,
                row + dr,
                col + dc,
                dr,
                dc,
                (n - 1) as nat,
            ),
        }
    }
}

/// The sliding moves along the first `n` directions.
pub open spec fn slide_moves(g: GameModel, piece: Piece, start: Position, dirs: Seq<(i8, i8)>, n: int) -> Seq<
    Move,
>
    decreases n,
{
    if n <= 0 {
        seq![]
    } else {
        slide_moves(g, piece, start, dirs, n - 1) + ray_moves(
            g,
            piece,
            start,
            start.spec_row() + dirs[n - 1].0,
            start.spec_col() + dirs[n - 1].1,
            dirs[n - 1].0 as int,
            dirs[n - 1].1 as int,
            8,
        )
    }
}

/// A knight's move to `(row, col)`, if the square is on the board and not the mover's own.
pub open spec fn knight_step(g: GameModel, piece: Piece, start: Position, row: int, col: int) -> Seq<
    Move,
> {
    if !on_board(row, col) {
        seq![]
    } else {
        match at(g, row, col) {
            Some(p) => if p.owner == g.current {
                seq![]
            } else {
                seq![normal(piece, start, row, col, Some(p))]
            },
            None => seq![normal(piece, start, row, col, None)],
        }
    }
}

pub open spec fn knight_moves(g: GameModel, piece: Piece, start: Position, n: int) -> Seq<Move>
    decreases n,
{
    if n <= 0 {
        seq![]
    } else {
        knight_moves(g, piece, start, n - 1) + knight_step(
            g,
            piece,
            start,
            start.spec_row() + knight_steps()[n - 1].0,
            start.spec_col() + knight_steps()[n - 1].1,
        )
    }
}

/// Whether the squares `(r1, c1)` and `(r2, c2)` touch (or are the same).
pub open spec fn touching(r1: int, c1: int, r2: int, c2: int) -> bool {
    -1 <= r1 - r2 <= 1 && -1 <= c1 - c2 <= 1
}

/// A king's step to `(row, col)`: on the board, not onto its own piece, and not next to the
/// other king.
pub open spec fn king_step(g: GameModel, piece: Piece, start: Position, row: int, col: int) -> Seq<
    Move,
> {
    let other = g.king_of(g.current.spec_the_other());
    if !on_board(row, col) {
        seq![]
    } else if (match at(g, row, col) {
        Some(p) => p.owner == g.current,
        None => false,
    }) {
        seq![]
    } else if touching(row, col, other.spec_row() as int, other.spec_col() as int) {
        seq![]
    } else {
        seq![normal(piece, start, row, col, at(g, row, col))]
    }
}

pub open spec fn king_step_moves(g: GameModel, piece: Piece, start: Position, n: int) -> Seq<Move>
    decreases n,
{
    if n <= 0 {
        seq![]
    } else {
        king_step_moves(g, piece, start, n - 1) + king_step(
            g,
            piece,
            start,
            start.spec_row() + king_steps()[n - 1].0,
            start.spec_col() + king_steps()[n - 1].1,
        )
    }
}

pub open spec fn empty(g: GameModel, row: int, col: int) -> bool {
    at(g, row, col) is None
}

/// Short castling, when the right is held, the squares between king and rook are empty and
/// neither the king's square nor the two it crosses are attacked.
pub open spec fn short_castling(g: GameModel) -> Seq<Move> {
    let s = g.top_state();
    let right = match g.current {
        Players::White => s.spec_white_king_castling(),
        Players::Black => s.spec_black_king_castling(),
    };
    let r = home_row(g.current);
    if right && empty(g, r, 5) && empty(g, r, 6) && !attacked(g, Position::at(r, 4), g.current)
        && !attacked(g, Position::at(r, 5), g.current) && !attacked(
        g,
        Position::at(r, 6),
        g.current,
    ) {
        seq![Move::CastlingShort { owner: g.current }]
    } else {
        seq![]
    }
}

/// Long castling, on the same conditions on the queen's side.
pub open spec fn long_castling(g: GameModel) -> Seq<Move> {
    let s = g.top_state();
    let right = match g.current {
        Players::White => s.spec_white_queen_castling(),
        Players::Black => s.spec_black_queen_castling(),
    };
    let r = home_row(g.current);
    if right && empty(g, r, 1) && empty(g, r, 2) && empty(g, r, 3) && !attacked(
        g,
        Position::at(r, 4),
        g.current,
    ) && !attacked(g, Position::at(r, 2), g.current) && !attacked(
        g,
        Position::at(r, 3),
        g.current,
    ) {
        seq![Move::CastlingLong { owner: g.current }]
    } else {
        seq![]
    }
}

pub open spec fn king_moves(g: GameModel, piece: Piece, start: Position) -> Seq<Move> {
    king_step_moves(g, piece, start, 8) + short_castling(g) + long_castling(g)
}

/// The four promotions of a pawn of `owner` moving from `start` to `(row, col)`.
pub open spec fn promotions(owner: Players, start: Position, row: int, col: int, captured: Option<
    Piece,
>) -> Seq<Move> {
    let end = Position::at(row, col);
    seq![
        Move::Promotion { owner, new_piece: PieceTypes::Queen, start, end, captured_piece: captured },
        Move::Promotion { owner, new_piece: PieceTypes::Rook, start, end, captured_piece: captured },
        Move::Promotion {
            owner,
            new_piece: PieceTypes::Bishop,
            start,
            end,
            captured_piece: captured,
        },
        Move::Promotion {
            owner,
            new_piece: PieceTypes::Knight,
            start,
            end,
            captured_piece: captured,
        },
    ]
}

pub open spec fn pawn_dir(owner: Players) -> int {
    match owner {
        Players::White => 1,
        Players::Black => -1,
    }
}

pub open spec fn pawn_first_row(owner: Players) -> int {
    match owner {
        Players::White => 1,
        Players::Black => 6,
    }
}

pub open spec fn pawn_last_row(owner: Players) -> int {
    match owner {
        Players::White => 7,
        Players::Black => 0,
    }
}

/// A pawn's move to `(row, col)` with `captured` taken: four promotions on the last row,
/// one plain move elsewhere.
pub open spec fn pawn_to(g: GameModel, piece: Piece, start: Position, row: int, col: int, captured: Option<
    Piece,
>) -> Seq<Move> {
    if row == pawn_last_row(piece.owner) {
        promotions(g.current, start, row, col, captured)
    } else {
        seq![normal(piece, start, row, col, captured)]
    }
}

pub open spec fn pawn_double(g: GameModel, piece: Piece, start: Position) -> Seq<Move> {
    let d = pawn_dir(piece.owner);
    let r = start.spec_row() as int;
    let c = start.spec_col() as int;
    if r == pawn_first_row(piece.owner) && empty(g, r + d, c) && empty(g, r + 2 * d, c) {
        seq![normal(piece, start, r + 2 * d, c, None)]
    } else {
        seq![]
    }
}

pub open spec fn pawn_single(g: GameModel, piece: Piece, start: Position) -> Seq<Move> {
    let d = pawn_dir(piece.owner);
    let r = start.spec_row() as int;
    let c = start.spec_col() as int;
    if on_board(r + d, c) && empty(g, r + d, c) {
        pawn_to(g, piece, start, r + d, c, None)
    } else {
        seq![]
    }
}

pub open spec fn pawn_capture(g: GameModel, piece: Piece, start: Position, dc: int) -> Seq<Move> {
    let d = pawn_dir(piece.owner);
    let r = start.spec_row() as int + d;
    let c = start.spec_col() as int + dc;
    if on_board(r, c) && (match at(g, r, c) {
        Some(p) => p.owner != piece.owner,
        None => false,
    }) {
        pawn_to(g, piece, start, r, c, at(g, r, c))
    } else {
        seq![]
    }
}

pub open spec fn pawn_en_passant(g: GameModel, piece: Piece, start: Position) -> Seq<Move> {
    let e = g.top_state().spec_en_passant() as int;
    let c = start.spec_col() as int;
    if start.spec_row() == crate::chess_game::en_passant_row(piece.owner) && e < 8 && (e - c == 1
        || e - c == -1) {
        seq![Move::EnPassant { owner: g.current, start_col: c as i8, end_col: e as i8 }]
    } else {
        seq![]
    }
}

pub open spec fn pawn_moves(g: GameModel, piece: Piece, start: Position) -> Seq<Move> {
    pawn_double(g, piece, start) + pawn_single(g, piece, start) + pawn_capture(g, piece, start, 1)
        + pawn_capture(g, piece, start, -1) + pawn_en_passant(g, piece, start)
}

/// The moves of `piece` standing on `start`, before any check of the own king's safety.
pub open spec fn piece_moves(g: GameModel, piece: Piece, start: Position) -> Seq<Move> {
    match piece.piece_type {
        PieceTypes::Pawn => pawn_moves(g, piece, start),
        PieceTypes::King => king_moves(g, piece, start),
        PieceTypes::Knight => knight_moves(g, piece, start, 8),
        PieceTypes::Rook => slide_moves(g, piece, start, rook_dirs(), 4),
        PieceTypes::Bishop => slide_moves(g, piece, start, bishop_dirs(), 4),
        PieceTypes::Queen => slide_moves(g, piece, start, queen_dirs(), 8),
    }
}

/// The moves of the pieces of the side to move on the first `n` squares.
pub open spec fn board_moves(g: GameModel, n: int) -> Seq<Move>
    decreases n,
{
    if n <= 0 {
        seq![]
    } else {
        board_moves(g, n - 1) + match g.board[n - 1] {
            Some(p) => if p.owner == g.current {
                piece_moves(g, p, Position::at((n - 1) / 8, (n - 1) % 8))
            } else {
                seq![]
            },
            None => seq![],
        }
    }
}

/// All moves of the side to move, before the check of the own king's safety; none when the
/// square where its king should be holds no king.
pub open spec fn pseudo_moves(g: GameModel) -> Seq<Move> {
    match g.piece_at(g.king_of(g.current)) {
        Some(p) => if p.piece_type == PieceTypes::King {
            board_moves(g, 64)
        } else {
            seq![]
        },
        None => seq![],
    }
}

/// A move list holds at most 256 moves; the generator drops what does not fit.
pub open spec fn capped(s: Seq<Move>) -> Seq<Move> {
    if s.len() <= 256 {
        s
    } else {
        s.take(256)
    }
}


pub proof fn lemma_capped_push(s: Seq<Move>, m: Move)
    ensures
        capped(capped(s).push(m)) == capped(s.push(m)),
        capped(s).len() <= 256,
{
    if s.len() >= 256 {
        assert(capped(s).push(m).take(256) =~= s.take(256));
        assert(s.push(m).take(256) =~= s.take(256));
    }
}

pub proof fn lemma_capped_concat(a: Seq<Move>, b: Seq<Move>)
    ensures
        capped(capped(a) + b) == capped(a + b),
{
    if a.len() >= 256 {
        assert((capped(a) + b).take(256) =~= a.take(256));
        assert((a + b).take(256) =~= a.take(256));
    }
}

pub proof fn lemma_capped_short(s: Seq<Move>)
    requires
        s.len() <= 256,
    ensures
        capped(s) == s,
{
}

// ---------------------------------------------------------------------------------------
// The check of the own king's safety

/// A plain move of a piece that stands on no row, column or diagonal through `king`.
pub open spec fn off_king_lines(m: Move, king: Position) -> bool {
    match m {
        Move::Normal { start, .. } => {
            let dc = start.spec_col() - king.spec_col();
            let dr = start.spec_row() - king.spec_row();
            dc != 0 && dr != 0 && dc != dr && dc != -dr
        },
        _ => false,
    }
}

/// Runs the first `n` moves of `ms` through the king-safety check, as `get_moves` does:
/// when the king of `player` on `king` is not in check, a plain move of a piece off the
/// king's lines is kept at once; any other move is played, kept if the king of `player` is
/// not attacked afterwards, and taken back. Gives the moves kept and the game afterwards.
pub open spec fn filter_moves(
    g: GameModel,
    ms: Seq<Move>,
    n: int,
    player: Players,
    king: Position,
    in_check: bool,
) -> (Seq<Move>, GameModel)
    decreases n,
{
    if n <= 0 {
        (seq![], g)
    } else {
        let (kept, h) = filter_moves(g, ms, n - 1, player, king, in_check);
        let m = ms[n - 1];
        if !in_check && off_king_lines(m, king) {
            (kept.push(m), h)
        } else {
            let p = h.pushed(m);
            let safe = !attacked(p, p.king_of(player), player);
            (
                if safe {
                    kept.push(m)
                } else {
                    kept
                },
                p.popped(m),
            )
        }
    }
}

/// The moves `get_moves` keeps when it checks the king's safety, and the game it leaves.
pub open spec fn checked_moves(g: GameModel) -> (Seq<Move>, GameModel) {
    let ms = capped(pseudo_moves(g));
    let king = g.king_of(g.current);
    filter_moves(g, ms, ms.len() as int, g.current, king, attacked(g, king, g.current))
}

// ---------------------------------------------------------------------------------------
// Generated moves name squares on the board

pub open spec fn all_wf(s: Seq<Move>) -> bool {
    forall|i: int| 0 <= i < s.len() ==> (#[trigger] s[i]).wf()
}

pub proof fn lemma_all_wf_concat(a: Seq<Move>, b: Seq<Move>)
    requires
        all_wf(a),
        all_wf(b),
    ensures
        all_wf(a + b),
{
    assert forall|i: int| 0 <= i < (a + b).len() implies (#[trigger] (a + b)[i]).wf() by {
        if i < a.len() {
            assert((a + b)[i] == a[i]);
        } else {
            assert((a + b)[i] == b[i - a.len()]);
        }
    }
}

proof fn lemma_normal_wf(piece: Piece, start: Position, row: int, col: int, captured: Option<Piece>)
    requires
        start.inv(),
        on_board(row, col),
    ensures
        normal(piece, start, row, col, captured).wf(),
        all_wf(seq![normal(piece, start, row, col, captured)]),
{
    Position::lemma_at(row, col);
}

proof fn lemma_ray_wf(g: GameModel, piece: Piece, start: Position, row: int, col: int, dr: int, dc: int, n: nat)
    requires
        start.inv(),
    ensures
        all_wf(ray_moves(g, piece, start, row, col, dr, dc, n)),
    decreases n,
{
    if n == 0 || !on_board(row, col) {
    } else {
        lemma_normal_wf(piece, start, row, col, at(g, row, col));
        lemma_normal_wf(piece, start, row, col, None);
        lemma_ray_wf(g, piece, start, row + dr, col + dc, dr, dc, (n - 1) as nat);
        match at(g, row, col) {
            Some(p) => {},
            None => {
                lemma_all_wf_concat(
                    seq![normal(piece, start, row, col, None)],
                    ray_moves(g, piece, start, row + dr, col + dc, dr, dc, (n - 1) as nat),
                );
            },
        }
    }
}

proof fn lemma_slide_wf(g: GameModel, piece: Piece, start: Position, dirs: Seq<(i8, i8)>, n: int)
    requires
        start.inv(),
    ensures
        all_wf(slide_moves(g, piece, start, dirs, n)),
    decreases n,
{
    if n > 0 {
        lemma_slide_wf(g, piece, start, dirs, n - 1);
        lemma_ray_wf(
            g,
            piece,
            start,
            start.spec_row() + dirs[n - 1].0,
            start.spec_col() + dirs[n - 1].1,
            dirs[n - 1].0 as int,
            dirs[n - 1].1 as int,
            8,
        );
        lemma_all_wf_concat(
            slide_moves(g, piece, start, dirs, n - 1),
            ray_moves(
                g,
                piece,
                start,
                start.spec_row() + dirs[n - 1].0,
                start.spec_col() + dirs[n - 1].1,
                dirs[n - 1].0 as int,
                dirs[n - 1].1 as int,
                8,
            ),
        );
    }
}

proof fn lemma_knight_wf(g: GameModel, piece: Piece, start: Position, n: int)
    requires
        start.inv(),
    ensures
        all_wf(knight_moves(g, piece, start, n)),
    decreases n,
{
    if n > 0 {
        lemma_knight_wf(g, piece, start, n - 1);
        let r = start.spec_row() + knight_steps()[n - 1].0;
        let c = start.spec_col() + knight_steps()[n - 1].1;
        if on_board(r, c) {
            lemma_normal_wf(piece, start, r, c, at(g, r, c));
            lemma_normal_wf(piece, start, r, c, None);
        }
        lemma_all_wf_concat(knight_moves(g, piece, start, n - 1), knight_step(g, piece, start, r, c));
    }
}

proof fn lemma_king_steps_wf(g: GameModel, piece: Piece, start: Position, n: int)
    requires
        start.inv(),
    ensures
        all_wf(king_step_moves(g, piece, start, n)),
    decreases n,
{
    if n > 0 {
        lemma_king_steps_wf(g, piece, start, n - 1);
        let r = start.spec_row() + king_steps()[n - 1].0;
        let c = start.spec_col() + king_steps()[n - 1].1;
        if on_board(r, c) {
            lemma_normal_wf(piece, start, r, c, at(g, r, c));
        }
        lemma_all_wf_concat(king_step_moves(g, piece, start, n - 1), king_step(g, piece, start, r, c));
    }
}

proof fn lemma_pawn_to_wf(g: GameModel, piece: Piece, start: Position, row: int, col: int, captured: Option<Piece>)
    requires
        start.inv(),
        on_board(row, col),
    ensures
        all_wf(pawn_to(g, piece, start, row, col, captured)),
{
    lemma_normal_wf(piece, start, row, col, captured);
    Position::lemma_at(row, col);
}

proof fn lemma_pawn_wf(g: GameModel, piece: Piece, start: Position)
    requires
        start.inv(),
    ensures
        all_wf(pawn_moves(g, piece, start)),
{
    Position::lemma_inv(start);
    let d = pawn_dir(piece.owner);
    let r = start.spec_row() as int;
    let c = start.spec_col() as int;
    if r == pawn_first_row(piece.owner) {
        lemma_normal_wf(piece, start, r + 2 * d, c, None);
    }
    if on_board(r + d, c) {
        lemma_pawn_to_wf(g, piece, start, r + d, c, None);
    }
    if on_board(r + d, c + 1) {
        lemma_pawn_to_wf(g, piece, start, r + d, c + 1, at(g, r + d, c + 1));
    }
    if on_board(r + d, c - 1) {
        lemma_pawn_to_wf(g, piece, start, r + d, c - 1, at(g, r + d, c - 1));
    }
    let a = pawn_double(g, piece, start);
    let b = pawn_single(g, piece, start);
    let x = pawn_capture(g, piece, start, 1);
    let y = pawn_capture(g, piece, start, -1);
    let e = pawn_en_passant(g, piece, start);
    crate::gamestate::GameState::lemma_en_passant_range(g.top_state());
    lemma_all_wf_concat(a, b);
    lemma_all_wf_concat(a + b, x);
    lemma_all_wf_concat(a + b + x, y);
    lemma_all_wf_concat(a + b + x + y, e);
}

pub proof fn lemma_piece_wf(g: GameModel, piece: Piece, start: Position)
    requires
        start.inv(),
    ensures
        all_wf(piece_moves(g, piece, start)),
{
    match piece.piece_type {
        PieceTypes::Pawn => lemma_pawn_wf(g, piece, start),
        PieceTypes::King => {
            lemma_king_steps_wf(g, piece, start, 8);
            lemma_all_wf_concat(king_step_moves(g, piece, start, 8), short_castling(g));
            lemma_all_wf_concat(king_step_moves(g, piece, start, 8) + short_castling(g), long_castling(g));
        },
        PieceTypes::Knight => lemma_knight_wf(g, piece, start, 8),
        PieceTypes::Rook => lemma_slide_wf(g, piece, start, rook_dirs(), 4),
        PieceTypes::Bishop => lemma_slide_wf(g, piece, start, bishop_dirs(), 4),
        PieceTypes::Queen => lemma_slide_wf(g, piece, start, queen_dirs(), 8),
    }
}

proof fn lemma_board_wf(g: GameModel, n: int)
    requires
        n <= 64,
    ensures
        all_wf(board_moves(g, n)),
    decreases n,
{
    if n > 0 {
        lemma_board_wf(g, n - 1);
        let i = n - 1;
        assert(0 <= i / 8 < 8 && 0 <= i % 8 < 8);
        Position::lemma_at(i / 8, i % 8);
        match g.board[i] {
            Some(p) => {
                lemma_piece_wf(g, p, Position::at(i / 8, i % 8));
                if p.owner == g.current {
                    lemma_all_wf_concat(board_moves(g, i), piece_moves(g, p, Position::at(i / 8, i % 8)));
                } else {
                    lemma_all_wf_concat(board_moves(g, i), seq![]);
                }
            },
            None => {
                lemma_all_wf_concat(board_moves(g, i), seq![]);
            },
        }
    }
}

/// Every move the generator produces names squares on the board.
pub proof fn lemma_pseudo_wf(g: GameModel)
    ensures
        all_wf(pseudo_moves(g)),
        all_wf(capped(pseudo_moves(g))),
{
    lemma_board_wf(g, 64);
}

/// The king-safety check keeps the game well formed and its state stack as it was, whatever
/// the moves do.
pub proof fn lemma_filter_wf(g: GameModel, ms: Seq<Move>, n: int, player: Players, king: Position, in_check: bool)
    requires
        g.wf(),
        g.states.len() < 512,
        all_wf(ms),
        0 <= n <= ms.len(),
    ensures
        filter_moves(g, ms, n, player, king, in_check).1.wf(),
        filter_moves(g, ms, n, player, king, in_check).1.states == g.states,
        filter_moves(g, ms, n, player, king, in_check).0.len() <= n,
    decreases n,
{
    if n > 0 {
        lemma_filter_wf(g, ms, n - 1, player, king, in_check);
        let h = filter_moves(g, ms, n - 1, player, king, in_check).1;
        let m = ms[n - 1];
        assert(m.wf());
        crate::game_laws::lemma_pushed_wf(h, m);
        let p = h.pushed(m);
        crate::game_laws::lemma_popped_wf(p, m);
        assert(p.popped(m).states =~= h.states);
        let kept = filter_moves(g, ms, n - 1, player, king, in_check).0;
        assert(kept.len() <= n - 1);
        assert(kept.push(m).len() <= n);
    }
}

/// The moves kept by the king-safety check are among those checked, so they too name
/// squares on the board.
pub proof fn lemma_filter_kept_wf(g: GameModel, ms: Seq<Move>, n: int, player: Players, king: Position, in_check: bool)
    requires
        all_wf(ms),
        0 <= n <= ms.len(),
    ensures
        all_wf(filter_moves(g, ms, n, player, king, in_check).0),
    decreases n,
{
    if n > 0 {
        lemma_filter_kept_wf(g, ms, n - 1, player, king, in_check);
        let kept = filter_moves(g, ms, n - 1, player, king, in_check).0;
        assert(ms[n - 1].wf());
        lemma_all_wf_concat(kept, seq![ms[n - 1]]);
        assert(kept + seq![ms[n - 1]] =~= kept.push(ms[n - 1]));
    }
}
} // verus!
