use vstd::prelude::*;

use std::sync::atomic::AtomicBool;

use arrayvec::ArrayVec;

use crate::arrays::{move_items, moves_get, moves_len, moves_new, moves_swap_pop};
use crate::chess_game::{ChessGame, GameModel, Players};
use crate::game_laws::{lemma_popped_wf, lemma_pushed_wf};
use crate::move_sort::{
    lemma_moves_by_key_keeps, lemma_sorted_by_order_keeps, moves_by_key, sort_by_keys, sort_moves,
    sorted_by_order,
};
use crate::move_struct::Move;
use crate::movegen::{all_wf, attacked, capped, checked_moves, lemma_pseudo_wf, pseudo_moves};
use crate::performance_test::lemma_checked_wf;
use crate::piece::Score;

verus! {

/// The game's score seen from the side to move (the game keeps it from White's side);
/// `None` where it does not fit in a score.
pub open spec fn side_score(g: GameModel) -> Option<i16> {
    match g.current {
        Players::White => Some(g.score),
        Players::Black => neg(g.score),
    }
}

/// The negation of a score; `None` for `i16::MIN`, whose negation does not fit.
pub open spec fn neg(v: i16) -> Option<i16> {
    if v == i16::MIN {
        None
    } else {
        Some((-v) as i16)
    }
}

/// The larger of two scores.
pub open spec fn max_score(a: i16, b: i16) -> i16 {
    if b > a {
        b
    } else {
        a
    }
}

/// The score of a side that has no move and whose king is attacked or missing: the longer
/// the game has gone on, the less bad the loss.
pub open spec fn mate_score(g: GameModel) -> i16 {
    (i16::MIN + 100 + g.states.len()) as i16
}

/// How many more states the game's stack can take.
pub open spec fn stack_room(g: GameModel) -> nat {
    (512 - g.states.len()) as nat
}

/// The score of a position in which the side to move has no move: a draw when its king is
/// safe, a loss otherwise.
pub open spec fn no_move_score(g: GameModel, needs_king: bool) -> i16 {
    if (!needs_king || g.king_present(g.current)) && !attacked(g, g.king_of(g.current), g.current) {
        0
    } else {
        mate_score(g)
    }
}

/// The quiescence search: the side to move may stand on the current score, or play a
/// capture or a promotion; `alpha` and `beta` bound the scores of interest. Gives the score
/// and the game left afterwards. `room` is how many more states the game's stack can take;
/// the result is `None` where the stack or a score would overflow.
pub open spec fn quiescence(g: GameModel, alpha: i16, beta: i16, room: nat) -> Option<(i16, GameModel)>
    decreases room, 1int, 0int,
{
    match side_score(g) {
        None => None,
        Some(current) => {
            let alpha = max_score(alpha, current);
            if alpha >= beta {
                Some((alpha, g))
            } else {
                let moves = capped(pseudo_moves(g));
                if moves.len() == 0 {
                    Some((no_move_score(g, true), g))
                } else {
                    replies(g, moves, 0, alpha, beta, room, true)
                }
            }
        }
    }
}

/// Answers each of the moves `moves[i..]` in turn with a quiescence search (only the
/// tactical moves when `tactical_only`), raising `alpha` to the best score found, until
/// `alpha` reaches `beta`.
pub open spec fn replies(
    g: GameModel,
    moves: Seq<Move>,
    i: int,
    alpha: i16,
    beta: i16,
    room: nat,
    tactical_only: bool,
) -> Option<(i16, GameModel)>
    decreases room, 0int, moves.len() - i,
{
    if i < 0 || i >= moves.len() {
        Some((alpha, g))
    } else {
        let m = moves[i];
        if tactical_only && !m.spec_is_tactical() {
            replies(g, moves, i + 1, alpha, beta, room, tactical_only)
        } else if room == 0 {
            None
        } else {
            match (neg(beta), neg(alpha)) {
                (Some(nb), Some(na)) => match quiescence(g.pushed(m), nb, na, (room - 1) as nat) {
                    Some((s, h)) => match neg(s) {
                        Some(score) => {
                            let alpha = max_score(alpha, score);
                            let h = h.popped(m);
                            if alpha >= beta {
                                Some((alpha, h))
                            } else {
                                replies(h, moves, i + 1, alpha, beta, room, tactical_only)
                            }
                        },
                        None => None,
                    },
                    None => None,
                },
                _ => None,
            }
        }
    }
}

/// The search one move deep: every move is answered by a quiescence search; a side with a
/// single move plays it without the depth going down.
pub open spec fn shallow(g: GameModel, alpha: i16, beta: i16, room: nat) -> Option<(i16, GameModel)>
    decreases room, 2int, 0int,
{
    let moves = capped(pseudo_moves(g));
    if moves.len() == 0 {
        Some((no_move_score(g, false), g))
    } else if moves.len() == 1 {
        let m = moves[0];
        if room == 0 {
            None
        } else {
            match (neg(beta), neg(alpha)) {
                (Some(nb), Some(na)) => match shallow(g.pushed(m), nb, na, (room - 1) as nat) {
                    Some((s, h)) => match neg(s) {
                        Some(score) => Some((score, h.popped(m))),
                        None => None,
                    },
                    None => None,
                },
                _ => None,
            }
        }
    } else {
        replies(g, moves, 0, alpha, beta, room, false)
    }
}

/// The first index, from `i` on, at which `moves` holds `m`.
pub open spec fn find_move(moves: Seq<Move>, m: Move, i: int) -> Option<int>
    decreases moves.len() - i,
{
    if i < 0 || i >= moves.len() {
        None
    } else if moves[i] == m {
        Some(i)
    } else {
        find_move(moves, m, i + 1)
    }
}

pub proof fn lemma_find_move(moves: Seq<Move>, m: Move, i: int)
    requires
        0 <= i,
    ensures
        find_move(moves, m, i) matches Some(j) ==> i <= j < moves.len() && moves[j] == m,
        find_move(moves, m, i) is None ==> forall|j: int| i <= j < moves.len() ==> moves[j] != m,
    decreases moves.len() - i,
{
    if 0 <= i < moves.len() && moves[i] != m {
        lemma_find_move(moves, m, i + 1);
    }
}

/// `moves` without the item at `i`, whose place the last item takes.
pub open spec fn swap_removed(moves: Seq<Move>, i: int) -> Seq<Move> {
    moves.update(i, moves.last()).drop_last()
}

/// A search result: the score, the game left afterwards and the killer moves.
pub type Found = (i16, GameModel, Seq<Option<Move>>);

/// The alpha-beta search `depth` moves deep, `ply` moves below the root, between the bounds
/// `alpha` and `beta`, with `killers` holding for each ply the move that last caused a
/// cut-off there (it is tried first).
///
/// At depth 1 it is `shallow`, at depth 0 the current score. Moves that leave the king
/// attacked are left out; with no move the result is `no_move_score`; a single move is
/// played without the depth going down. Otherwise the killer move of this ply is tried
/// first, then the other moves: from depth 5 on in the order of a search 5 moves shallower
/// (lowest score for the opponent first), below that in `move_order`. The first move that
/// reaches `beta` becomes the killer move of this ply.
///
/// `None` where the game's stack, a ply count, the killer table or a score would overflow.
pub open spec fn search(
    g: GameModel,
    depth: u8,
    ply: u8,
    alpha: i16,
    beta: i16,
    killers: Seq<Option<Move>>,
    room: nat,
) -> Option<Found>
    decreases room, 5int, 0int,
{
    if depth == 1 {
        match shallow(g, alpha, beta, room) {
            Some((s, h)) => Some((s, h, killers)),
            None => None,
        }
    } else if depth == 0 {
        match side_score(g) {
            Some(s) => Some((s, g, killers)),
            None => None,
        }
    } else if room == 0 {
        None
    } else {
        let (moves, g) = checked_moves(g);
        if moves.len() == 0 {
            Some((no_move_score(g, false), g, killers))
        } else if moves.len() == 1 {
            let m = moves[0];
            if ply == u8::MAX {
                None
            } else {
                match (neg(beta), neg(alpha)) {
                    (Some(nb), Some(na)) => match search(
                        g.pushed(m),
                        depth,
                        (ply + 1) as u8,
                        nb,
                        na,
                        killers,
                        (room - 1) as nat,
                    ) {
                        Some((s, h, k)) => match neg(s) {
                            Some(score) => Some((score, h.popped(m), k)),
                            None => None,
                        },
                        None => None,
                    },
                    _ => None,
                }
            }
        } else if ply >= killers.len() {
            None
        } else {
            match killer_first(g, moves, depth, ply, alpha, beta, killers, room) {
                None => None,
                Some((alpha, g, killers, moves, cut)) => if cut {
                    Some((alpha, g, killers))
                } else if depth >= 5 {
                    match move_keys(g, moves, 0, seq![], depth, ply, alpha, beta, killers, room) {
                        Some((keys, g, killers)) => sweep(
                            g,
                            moves_by_key(keys, moves),
                            0,
                            depth,
                            ply,
                            alpha,
                            beta,
                            killers,
                            room,
                        ),
                        None => None,
                    }
                } else {
                    sweep(g, sorted_by_order(moves), 0, depth, ply, alpha, beta, killers, room)
                },
            }
        }
    }
}

/// Tries the killer move of `ply` first, when it is among `moves`: gives the raised `alpha`,
/// the game, the killer moves, the moves left to try and whether `alpha` reached `beta`.
pub open spec fn killer_first(
    g: GameModel,
    moves: Seq<Move>,
    depth: u8,
    ply: u8,
    alpha: i16,
    beta: i16,
    killers: Seq<Option<Move>>,
    room: nat,
) -> Option<(i16, GameModel, Seq<Option<Move>>, Seq<Move>, bool)>
    decreases room, 4int, 0int,
{
    if room == 0 || ply >= killers.len() {
        None
    } else {
        match killers[ply as int] {
            None => Some((alpha, g, killers, moves, false)),
            Some(k) => match find_move(moves, k, 0) {
                None => Some((alpha, g, killers, moves, false)),
                Some(index) => match (neg(beta), neg(alpha)) {
                    (Some(nb), Some(na)) => match search(
                        g.pushed(k),
                        (depth - 1) as u8,
                        (ply + 1) as u8,
                        nb,
                        na,
                        killers,
                        (room - 1) as nat,
                    ) {
                        Some((s, h, ks)) => match neg(s) {
                            Some(score) => {
                                let alpha = max_score(alpha, score);
                                Some((alpha, h.popped(k), ks, swap_removed(moves, index), alpha >= beta))
                            },
                            None => None,
                        },
                        None => None,
                    },
                    _ => None,
                },
            },
        }
    }
}

/// The scores of a search 5 moves shallower after each of `moves[i..]`, appended to `keys`,
/// that order the moves at depth 5 and more.
pub open spec fn move_keys(
    g: GameModel,
    moves: Seq<Move>,
    i: int,
    keys: Seq<i16>,
    depth: u8,
    ply: u8,
    alpha: i16,
    beta: i16,
    killers: Seq<Option<Move>>,
    room: nat,
) -> Option<(Seq<i16>, GameModel, Seq<Option<Move>>)>
    decreases room, 3int, moves.len() - i,
{
    if i < 0 || i >= moves.len() {
        Some((keys, g, killers))
    } else if room == 0 {
        None
    } else {
        let m = moves[i];
        match (neg(beta), neg(alpha)) {
            (Some(nb), Some(na)) => match search(
                g.pushed(m),
                (depth - 5) as u8,
                (ply + 1) as u8,
                nb,
                na,
                killers,
                (room - 1) as nat,
            ) {
                Some((s, h, ks)) => move_keys(
                    h.popped(m),
                    moves,
                    i + 1,
                    keys.push(s),
                    depth,
                    ply,
                    alpha,
                    beta,
                    ks,
                    room,
                ),
                None => None,
            },
            _ => None,
        }
    }
}

/// Searches each of `moves[i..]` in turn one move shallower, raising `alpha` to the best
/// score found, until `alpha` reaches `beta`; the move that reaches it becomes the killer
/// move of `ply`.
pub open spec fn sweep(
    g: GameModel,
    moves: Seq<Move>,
    i: int,
    depth: u8,
    ply: u8,
    alpha: i16,
    beta: i16,
    killers: Seq<Option<Move>>,
    room: nat,
) -> Option<Found>
    decreases room, 3int, moves.len() - i,
{
    if i < 0 || i >= moves.len() {
        Some((alpha, g, killers))
    } else if room == 0 {
        None
    } else {
        let m = moves[i];
        match (neg(beta), neg(alpha)) {
            (Some(nb), Some(na)) => match search(
                g.pushed(m),
                (depth - 1) as u8,
                (ply + 1) as u8,
                nb,
                na,
                killers,
                (room - 1) as nat,
            ) {
                Some((s, h, ks)) => match neg(s) {
                    Some(score) => {
                        let alpha = max_score(alpha, score);
                        let h = h.popped(m);
                        if alpha >= beta {
                            Some((alpha, h, ks.update(ply as int, Some(m))))
                        } else {
                            sweep(h, moves, i + 1, depth, ply, alpha, beta, ks, room)
                        }
                    },
                    None => None,
                },
                None => None,
            },
            _ => None,
        }
    }
}

/// The moves to try at the root: when the last move played repeats the one played four
/// moves before it, the move played three moves before the last is left out, so as not to
/// repeat the position a third time.
pub open spec fn without_repetition(history: Seq<Move>, moves: Seq<Move>) -> Seq<Move> {
    let n = history.len();
    if n >= 5 && history[n - 1] == history[n - 5] {
        match find_move(moves, history[n - 4], 0) {
            Some(i) => swap_removed(moves, i),
            None => moves,
        }
    } else {
        moves
    }
}

/// The root of the search, `depth` moves deep: with a single move, that move, score 0 and
/// `true`. Otherwise each move is searched in turn, with the bounds from the lowest score up
/// to the opposite of the best score so far; gives the first move with the best score (none
/// without moves), that score (`-i16::MAX` without moves) and `false`.
/// `None` where the search would overflow, and with two moves or more at depth 0 (the depth
/// of the searches below the root would go under 0).
pub open spec fn best_move(g: GameModel, depth: u8) -> Option<(Option<Move>, i16, bool)> {
    if stack_room(g) == 0 {
        None
    } else {
        let (moves, g) = checked_moves(g);
        if moves.len() == 1 {
            Some((Some(moves[0]), 0, true))
        } else if moves.len() >= 2 && depth == 0 {
            None
        } else {
            match root_sweep(
                g,
                without_repetition(g.history, moves),
                0,
                depth,
                None,
                (-i16::MAX) as i16,
                Seq::new(32, |i: int| None::<Move>),
                stack_room(g),
            ) {
                Some((found, score)) => Some((found, score, false)),
                None => None,
            }
        }
    }
}

/// Searches each of `moves[i..]` at the root, keeping the first move with the best score.
pub open spec fn root_sweep(
    g: GameModel,
    moves: Seq<Move>,
    i: int,
    depth: u8,
    best: Option<Move>,
    best_score: i16,
    killers: Seq<Option<Move>>,
    room: nat,
) -> Option<(Option<Move>, i16)>
    decreases moves.len() - i,
{
    if i < 0 || i >= moves.len() {
        Some((best, best_score))
    } else if room == 0 {
        None
    } else {
        let m = moves[i];
        match neg(best_score) {
            Some(nb) => match search(
                g.pushed(m),
                (depth - 1) as u8,
                1,
                (i16::MIN + 1) as i16,
                nb,
                killers,
                (room - 1) as nat,
            ) {
                Some((s, h, ks)) => match neg(s) {
                    Some(score) => if score > best_score {
                        root_sweep(h.popped(m), moves, i + 1, depth, Some(m), score, ks, room)
                    } else {
                        root_sweep(h.popped(m), moves, i + 1, depth, best, best_score, ks, room)
                    },
                    None => None,
                },
                None => None,
            },
            None => None,
        }
    }
}

/// The game's score seen from the side to move; `None` where it does not fit in a score.
fn side_score_of(game: &ChessGame) -> (r: Option<Score>)
    ensures
        r == side_score(game@),
{
    match game.current_player {
        Players::White => Some(game.score),
        Players::Black => if game.score == i16::MIN {
            None
        } else {
            Some(-game.score)
        },
    }
}

fn mate_score_of(game: &ChessGame) -> (r: Score)
    requires
        game.wf(),
    ensures
        r == mate_score(game@),
{
    let n = game.len() as i16;
    i16::MIN + 100 + n
}

/// Quiescence search: extends the search with captures and promotions until the position
/// is quiet, so that a capture just before the search horizon is not misjudged. `None`
/// where the game's state stack or a score would overflow.
fn quiescence_search(game: &mut ChessGame, alpha: Score, beta: Score) -> (r: Option<Score>)
    requires
        old(game).wf(),
    ensures
        final(game).wf(),
        match quiescence(old(game)@, alpha, beta, stack_room(old(game)@)) {
            Some((v, h)) => r == Some(v) && final(game)@ == h && h.states == old(game)@.states,
            None => r is None,
        },
    decreases 512 - old(game)@.states.len(),
{
    let ghost g0 = game@;
    let ghost total = quiescence(g0, alpha, beta, stack_room(g0));
    let current_score = match side_score_of(game) {
        Some(v) => v,
        None => return None,
    };
    let mut best = if current_score > alpha {
        current_score
    } else {
        alpha
    };
    if best >= beta {
        return Some(best);
    }
    let player = game.current_player;
    let mut moves = moves_new();
    // It is possible for the game to be a stalemate, but be recognized as a checkmate,
    // because the king's safety is not checked here.
    game.get_moves(&mut moves, false);
    let len = moves_len(&moves);
    if len == 0 {
        if game.king_exists(player) && !game.is_targeted(game.get_king_position(player), player) {
            return Some(0);
        } else {
            // The earlier the mate the worse the score for the losing player
            return Some(mate_score_of(game));
        }
    }
    proof {
        lemma_pseudo_wf(g0);
    }
    let ghost ms = move_items(moves);
    let mut i: usize = 0;
    let mut cut = false;
    while i < len && !cut
        invariant
            g0.wf(),
            game.wf(),
            game@.states == g0.states,
            ms == move_items(moves),
            len == ms.len(),
            all_wf(ms),
            i <= len,
            cut ==> total == Some((best, game@)),
            !cut ==> replies(game@, ms, i as int, best, beta, stack_room(g0), true) == total,
            g0 == old(game)@,
            total == quiescence(old(game)@, alpha, beta, stack_room(old(game)@)),
        decreases len - i,
    {
        let m = moves_get(&moves, i);
        if m.is_tactical_move() {
            if game.len() >= 512 || beta == i16::MIN || best == i16::MIN {
                return None;
            }
            proof {
                lemma_pushed_wf(game@, m);
            }
            game.push(m);
            assert(game@.states.len() == g0.states.len() + 1);
            let s = match quiescence_search(game, -beta, -best) {
                Some(s) => s,
                None => return None,
            };
            if s == i16::MIN {
                return None;
            }
            proof {
                lemma_popped_wf(game@, m);
            }
            game.pop(m);
            let score = -s;
            if score > best {
                best = score;
            }
            if best >= beta {
                cut = true;
            }
        }
        i += 1;
    }
    Some(best)
}

/// The search with a depth of 1, on its own because most of the search's time is spent
/// there: the moves' safety for the king is not checked, and every move is answered by a
/// quiescence search. `None` where the game's state stack or a score would overflow.
fn get_best_move_score_depth_1(game: &mut ChessGame, alpha: Score, beta: Score) -> (r: Option<
    Score,
>)
    requires
        old(game).wf(),
    ensures
        final(game).wf(),
        match shallow(old(game)@, alpha, beta, stack_room(old(game)@)) {
            Some((v, h)) => r == Some(v) && final(game)@ == h && h.states == old(game)@.states,
            None => r is None,
        },
    decreases 512 - old(game)@.states.len(),
{
    let ghost g0 = game@;
    let ghost total = shallow(g0, alpha, beta, stack_room(g0));
    let player = game.current_player;
    let mut moves = moves_new();
    game.get_moves(&mut moves, false);
    proof {
        lemma_pseudo_wf(g0);
    }
    let ghost ms = move_items(moves);
    let len = moves_len(&moves);
    if len == 0 {
        if !game.is_targeted(game.get_king_position(player), player) {
            return Some(0);
        } else {
            // The earlier the mate the worse the score for the losing player
            return Some(mate_score_of(game));
        }
    } else if len == 1 {
        // With a single move available, play it without decreasing the depth
        let m = moves_get(&moves, 0);
        if game.len() >= 512 || beta == i16::MIN || alpha == i16::MIN {
            return None;
        }
        proof {
            lemma_pushed_wf(game@, m);
        }
        game.push(m);
        let s = match get_best_move_score_depth_1(game, -beta, -alpha) {
            Some(s) => s,
            None => return None,
        };
        if s == i16::MIN {
            return None;
        }
        proof {
            lemma_popped_wf(game@, m);
        }
        game.pop(m);
        return Some(-s);
    }
    let mut best = alpha;
    let mut i: usize = 0;
    let mut cut = false;
    while i < len && !cut
        invariant
            g0.wf(),
            game.wf(),
            game@.states == g0.states,
            ms == move_items(moves),
            len == ms.len(),
            all_wf(ms),
            i <= len,
            cut ==> total == Some((best, game@)),
            !cut ==> replies(game@, ms, i as int, best, beta, stack_room(g0), false) == total,
            g0 == old(game)@,
            total == shallow(old(game)@, alpha, beta, stack_room(old(game)@)),
        decreases len - i,
    {
        let m = moves_get(&moves, i);
        if game.len() >= 512 || beta == i16::MIN || best == i16::MIN {
            return None;
        }
        proof {
            lemma_pushed_wf(game@, m);
        }
        game.push(m);
        let s = match quiescence_search(game, -beta, -best) {
            Some(s) => s,
            None => return None,
        };
        if s == i16::MIN {
            return None;
        }
        proof {
            lemma_popped_wf(game@, m);
        }
        game.pop(m);
        let score = -s;
        if score > best {
            best = score;
        }
        if best >= beta {
            cut = true;
        }
        i += 1;
    }
    Some(best)
}

/// Whether the search has been asked to stop.
fn stop_requested(should_stop: &AtomicBool) -> bool {
    should_stop.load(std::sync::atomic::Ordering::Relaxed)
}

/// The moves of a move list, in order.
fn to_vec(moves: &ArrayVec<Move, 256>) -> (r: Vec<Move>)
    ensures
        r@ == move_items(*moves),
{
    let len = moves_len(moves);
    let mut r: Vec<Move> = Vec::new();
    let mut i: usize = 0;
    while i < len
        invariant
            len == move_items(*moves).len(),
            i <= len,
            r@ == move_items(*moves).take(i as int),
        decreases len - i,
    {
        r.push(moves_get(moves, i));
        proof {
            assert(move_items(*moves).take(i + 1) =~= move_items(*moves).take(i as int).push(
                move_items(*moves)[i as int],
            ));
        }
        i += 1;
    }
    proof {
        assert(move_items(*moves).take(len as int) =~= move_items(*moves));
    }
    r
}

/// The first index at which the move list holds `m`.
pub(crate) fn find_in(moves: &ArrayVec<Move, 256>, m: Move) -> (r: Option<usize>)
    ensures
        r matches Some(i) ==> find_move(move_items(*moves), m, 0) == Some(i as int) && i < move_items(
            *moves,
        ).len() && move_items(*moves)[i as int] == m,
        r is None ==> find_move(move_items(*moves), m, 0) is None,
{
    let ghost ms = move_items(*moves);
    let len = moves_len(moves);
    let mut index: usize = 0;
    while index < len && moves_get(moves, index) != m
        invariant
            len == ms.len(),
            ms == move_items(*moves),
            index <= len,
            find_move(ms, m, 0) == find_move(ms, m, index as int),
        decreases len - index,
    {
        index += 1;
    }
    proof {
        lemma_find_move(ms, m, 0);
    }
    if index == len {
        None
    } else {
        Some(index)
    }
}

/// Core function of the alpha beta search algorithm.
/// It halts early and returns `None` when `should_stop` is set, and where `search` is `None`;
/// otherwise it returns the score for the current player that the alpha-beta search with its
/// pruning and move ordering computes, as `search` gives it.
fn get_best_move_score(
    game: &mut ChessGame,
    should_stop: &AtomicBool,
    remaining_depth: u8,
    real_depth: u8,
    alpha: Score,
    beta: Score,
    killer_moves: &mut [Option<Move>; 32],
) -> (r: Option<Score>)
    requires
        old(game).wf(),
    ensures
        final(game).wf(),
        r matches Some(v) ==> final(game)@.states == old(game)@.states && search(
            old(game)@,
            remaining_depth,
            real_depth,
            alpha,
            beta,
            old(killer_moves)@,
            stack_room(old(game)@),
        ) == Some((v, final(game)@, final(killer_moves)@)),
    decreases 512 - old(game)@.states.len(), 5int,
{
    if stop_requested(should_stop) {
        // Halt the search early
        return None;
    }
    if remaining_depth == 1 {
        return get_best_move_score_depth_1(game, alpha, beta);
    } else if remaining_depth == 0 {
        return side_score_of(game);
    }
    if game.len() >= 512 {
        return None;
    }
    let ghost g0 = game@;
    let mut moves = moves_new();
    game.get_moves(&mut moves, true);
    proof {
        lemma_checked_wf(g0);
    }
    let player = game.current_player;
    let len = moves_len(&moves);
    if len == 0 {
        if !game.is_targeted(game.get_king_position(player), player) {
            return Some(0);
        } else {
            // The earlier the mate the worse the score for the losing player
            return Some(mate_score_of(game));
        }
    } else if len == 1 {
        // With a single move available, play it without decreasing the depth
        let m = moves_get(&moves, 0);
        if real_depth == u8::MAX || beta == i16::MIN || alpha == i16::MIN {
            return None;
        }
        proof {
            lemma_pushed_wf(game@, m);
        }
        game.push(m);
        let s = match get_best_move_score(
            game,
            should_stop,
            remaining_depth,
            real_depth + 1,
            -beta,
            -alpha,
            killer_moves,
        ) {
            Some(s) => s,
            None => return None,
        };
        if s == i16::MIN {
            return None;
        }
        proof {
            lemma_popped_wf(game@, m);
        }
        game.pop(m);
        return Some(-s);
    }
    if real_depth >= 32 {
        return None;
    }
    // Before sorting, try the killer move (and remove it from the list)
    let (alpha, cut) = match try_killer_first(
        game,
        should_stop,
        &mut moves,
        remaining_depth,
        real_depth,
        alpha,
        beta,
        killer_moves,
    ) {
        Some(found) => found,
        None => return None,
    };
    if cut {
        return Some(alpha);
    }
    let list = to_vec(&moves);
    // Sort the moves so that the most likely to be good come first
    let order = if remaining_depth >= 5 {
        let keys = match order_keys(
            game,
            should_stop,
            &list,
            remaining_depth,
            real_depth,
            alpha,
            beta,
            killer_moves,
        ) {
            Some(keys) => keys,
            None => return None,
        };
        proof {
            lemma_moves_by_key_keeps(keys@, list@, |m: Move| m.wf());
        }
        sort_by_keys(&keys, &list)
    } else {
        proof {
            lemma_sorted_by_order_keeps(list@, |m: Move| m.wf());
        }
        sort_moves(&list)
    };
    sweep_moves(game, should_stop, &order, remaining_depth, real_depth, alpha, beta, killer_moves)
}

/// A killer move is recorded and is among `moves`: only then is it tried first.
pub open spec fn killer_listed(killer: Option<Move>, moves: Seq<Move>) -> bool {
    match killer {
        Some(k) => find_move(moves, k, 0) is Some,
        None => false,
    }
}

/// Tries first the killer move of `ply`, if it is among `moves`, and takes it out of them.
/// Gives the raised `alpha` and whether it reached `beta`.
fn try_killer_first(
    game: &mut ChessGame,
    should_stop: &AtomicBool,
    moves: &mut ArrayVec<Move, 256>,
    depth: u8,
    ply: u8,
    alpha: Score,
    beta: Score,
    killer_moves: &mut [Option<Move>; 32],
) -> (r: Option<(Score, bool)>)
    requires
        old(game).wf(),
        all_wf(move_items(*old(moves))),
        depth >= 2,
        old(game)@.states.len() < 512,
        ply < 32,
    ensures
        final(game).wf(),
        all_wf(move_items(*final(moves))),
        r matches Some((a, cut)) ==> final(game)@.states == old(game)@.states && killer_first(
            old(game)@,
            move_items(*old(moves)),
            depth,
            ply,
            alpha,
            beta,
            old(killer_moves)@,
            stack_room(old(game)@),
        ) == Some((a, final(game)@, final(killer_moves)@, move_items(*final(moves)), cut)),
        !killer_listed(old(killer_moves)@[ply as int], move_items(*old(moves))) ==> {
            &&& r == Some((alpha, false))
            &&& final(game)@ == old(game)@
            &&& final(killer_moves)@ == old(killer_moves)@
            &&& move_items(*final(moves)) == move_items(*old(moves))
        },
    decreases 512 - old(game)@.states.len(), 4int,
{
    let ghost ms = move_items(*moves);
    let killer = killer_moves[ply as usize];
    let killer_move = match killer {
        Some(k) => k,
        None => return Some((alpha, false)),
    };
    let index = match find_in(moves, killer_move) {
        Some(index) => index,
        None => return Some((alpha, false)),
    };
    if beta == i16::MIN || alpha == i16::MIN {
        return None;
    }
    let _ = moves_swap_pop(moves, index);
    proof {
        assert forall|i: int| 0 <= i < move_items(*moves).len() implies (#[trigger] move_items(*moves)[i]).wf() by {
            assert(ms.update(index as int, ms.last()).drop_last()[i] == ms.update(index as int, ms.last())[i]);
            if i == index {
                assert(ms[ms.len() - 1].wf());
            } else {
                assert(ms[i].wf());
            }
        }
        assert(killer_move.wf());
        lemma_pushed_wf(game@, killer_move);
    }
    game.push(killer_move);
    let s = match get_best_move_score(
        game,
        should_stop,
        depth - 1,
        ply + 1,
        -beta,
        -alpha,
        killer_moves,
    ) {
        Some(s) => s,
        None => return None,
    };
    if s == i16::MIN {
        return None;
    }
    proof {
        lemma_popped_wf(game@, killer_move);
    }
    game.pop(killer_move);
    let score = -s;
    let alpha = if score > alpha {
        score
    } else {
        alpha
    };
    Some((alpha, alpha >= beta))
}

/// The keys that order the moves at depth 5 and more: the score of a search 5 moves
/// shallower after each move.
fn order_keys(
    game: &mut ChessGame,
    should_stop: &AtomicBool,
    list: &Vec<Move>,
    depth: u8,
    ply: u8,
    alpha: Score,
    beta: Score,
    killer_moves: &mut [Option<Move>; 32],
) -> (r: Option<Vec<i16>>)
    requires
        old(game).wf(),
        all_wf(list@),
        depth >= 5,
        ply < 32,
    ensures
        final(game).wf(),
        r matches Some(keys) ==> keys.len() == list.len(),
        list@.len() == 0 ==> (r matches Some(keys) && keys@ == Seq::<i16>::empty()) && final(game)@
            == old(game)@ && final(killer_moves)@ == old(killer_moves)@,
        r matches Some(keys) ==> final(game)@.states == old(game)@.states && move_keys(
            old(game)@,
            list@,
            0,
            seq![],
            depth,
            ply,
            alpha,
            beta,
            old(killer_moves)@,
            stack_room(old(game)@),
        ) == Some((keys@, final(game)@, final(killer_moves)@)),
    decreases 512 - old(game)@.states.len(), 3int,
{
    let ghost g0 = game@;
    let ghost total = move_keys(g0, list@, 0, seq![], depth, ply, alpha, beta, killer_moves@, stack_room(g0));
    let mut keys: Vec<i16> = Vec::new();
    let mut i: usize = 0;
    while i < list.len()
        invariant
            g0 == old(game)@,
            g0.wf(),
            game.wf(),
            game@.states == g0.states,
            all_wf(list@),
            i <= list.len(),
            depth >= 5,
            ply < 32,
            keys.len() == i,
            i == 0 ==> game@ == g0 && killer_moves@ == old(killer_moves)@,
            move_keys(game@, list@, i as int, keys@, depth, ply, alpha, beta, killer_moves@, stack_room(g0)) == total,
        decreases list.len() - i,
    {
        let m = list[i];
        if game.len() >= 512 || beta == i16::MIN || alpha == i16::MIN {
            return None;
        }
        proof {
            assert(m.wf());
            lemma_pushed_wf(game@, m);
        }
        game.push(m);
        assert(game@.states.len() == g0.states.len() + 1);
        let s = match get_best_move_score(
            game,
            should_stop,
            depth - 5,
            ply + 1,
            -beta,
            -alpha,
            killer_moves,
        ) {
            Some(s) => s,
            None => return None,
        };
        proof {
            lemma_popped_wf(game@, m);
        }
        game.pop(m);
        keys.push(s);
        i += 1;
    }
    Some(keys)
}

/// Searches each of the moves in turn one move shallower, until one reaches `beta`; that
/// one becomes the killer move of `ply`.
fn sweep_moves(
    game: &mut ChessGame,
    should_stop: &AtomicBool,
    order: &Vec<Move>,
    depth: u8,
    ply: u8,
    alpha: Score,
    beta: Score,
    killer_moves: &mut [Option<Move>; 32],
) -> (r: Option<Score>)
    requires
        old(game).wf(),
        all_wf(order@),
        depth >= 2,
        ply < 32,
    ensures
        final(game).wf(),
        r matches Some(v) ==> final(game)@.states == old(game)@.states && sweep(
            old(game)@,
            order@,
            0,
            depth,
            ply,
            alpha,
            beta,
            old(killer_moves)@,
            stack_room(old(game)@),
        ) == Some((v, final(game)@, final(killer_moves)@)),
        order@.len() == 0 ==> r == Some(alpha) && final(game)@ == old(game)@
            && final(killer_moves)@ == old(killer_moves)@,
    decreases 512 - old(game)@.states.len(), 3int,
{
    let ghost g0 = game@;
    let ghost total = sweep(g0, order@, 0, depth, ply, alpha, beta, killer_moves@, stack_room(g0));
    let alpha0 = alpha;
    let mut alpha = alpha;
    let mut i: usize = 0;
    let mut cut = false;
    while i < order.len() && !cut
        invariant
            g0 == old(game)@,
            g0.wf(),
            game.wf(),
            game@.states == g0.states,
            all_wf(order@),
            i <= order.len(),
            depth >= 2,
            ply < 32,
            cut ==> total == Some((alpha, game@, killer_moves@)),
            !cut ==> sweep(game@, order@, i as int, depth, ply, alpha, beta, killer_moves@, stack_room(g0)) == total,
            i == 0 ==> game@ == g0 && killer_moves@ == old(killer_moves)@ && !cut && alpha == alpha0,
        decreases order.len() - i,
    {
        let m = order[i];
        if game.len() >= 512 || beta == i16::MIN || alpha == i16::MIN {
            return None;
        }
        proof {
            assert(m.wf());
            lemma_pushed_wf(game@, m);
        }
        game.push(m);
        assert(game@.states.len() == g0.states.len() + 1);
        let s = match get_best_move_score(
            game,
            should_stop,
            depth - 1,
            ply + 1,
            -beta,
            -alpha,
            killer_moves,
        ) {
            Some(s) => s,
            None => return None,
        };
        if s == i16::MIN {
            return None;
        }
        proof {
            lemma_popped_wf(game@, m);
        }
        game.pop(m);
        let score = -s;
        if score > alpha {
            alpha = score;
        }
        if alpha >= beta {
            killer_moves[ply as usize] = Some(m);
            cut = true;
        }
        i += 1;
    }
    Some(alpha)
}

/// This function is the entry point for the search algorithm.
/// It returns the chosen move, its score and a flag telling whether there is only one move
/// available, as `best_move` gives them; `None` when `should_stop` was set before the search
/// was done, and where `best_move` is `None` (the search would overflow the game's state
/// stack, the ply count, the killer table or a score, or the depth is 0 with several moves).
pub fn get_best_move_entry(game: ChessGame, should_stop: &AtomicBool, depth: u8) -> (r: Option<
    (Option<Move>, Score, bool),
>)
    requires
        game.wf(),
    ensures
        r matches Some(found) ==> best_move(game@, depth) == Some(found),
        checked_moves(game@).0.len() <= 1 ==> r == best_move(game@, depth),
{
    let mut play = game;
    if play.len() >= 512 {
        return None;
    }
    let ghost g0 = play@;
    let mut moves = moves_new();
    play.get_moves(&mut moves, true);
    proof {
        lemma_checked_wf(g0);
    }
    let ghost g1 = play@;
    // If there is only one move available don't bother searching
    if moves_len(&moves) == 1 {
        return Some((Some(moves_get(&moves, 0)), 0, true));
    }
    if depth == 0 && moves_len(&moves) >= 2 {
        return None;
    }
    let mut killer_moves: [Option<Move>; 32] = [None; 32];
    let mut best_move: Option<Move> = None;
    let mut best_score: Score = -i16::MAX;
    // Prevent threefold repetition
    let n = play.move_stack.len();
    if n >= 5 && play.move_stack[n - 1] == play.move_stack[n - 5] {
        let repetition_move = play.move_stack[n - 4];
        if let Some(index) = find_in(&moves, repetition_move) {
            let _ = moves_swap_pop(&mut moves, index);
        }
    }
    let ghost ms = move_items(moves);
    proof {
        assert(killer_moves@ =~= Seq::new(32, |i: int| None::<Move>));
        assert(ms == without_repetition(g1.history, checked_moves(g0).0));
        assert forall|i: int| 0 <= i < ms.len() implies (#[trigger] ms[i]).wf() by {
            let cm = checked_moves(g0).0;
            if ms != cm {
                let k = find_move(cm, g1.history[n - 4], 0)->Some_0;
                assert(ms[i] == cm.update(k, cm.last())[i]);
                if i == k {
                    assert(cm[cm.len() - 1].wf());
                } else {
                    assert(cm[i].wf());
                }
            } else {
                assert(cm[i].wf());
            }
        }
    }
    proof {
        let cm = checked_moves(g0).0;
        if cm.len() == 0 {
            assert(ms.len() == 0);
        }
    }
    let ghost total = root_sweep(g1, ms, 0, depth, None, (-i16::MAX) as i16, killer_moves@, stack_room(g1));
    let len = moves_len(&moves);
    let mut i: usize = 0;
    while i < len
        invariant
            g1.wf(),
            play.wf(),
            play@.states == g1.states,
            ms == move_items(moves),
            len == ms.len(),
            all_wf(ms),
            i <= len,
            len > 0 ==> depth >= 1,
            root_sweep(play@, ms, i as int, depth, best_move, best_score, killer_moves@, stack_room(g1))
                == total,
            len > 0 ==> checked_moves(game@).0.len() >= 2,
            g0 == game@,
        decreases len - i,
    {
        let m = moves_get(&moves, i);
        if play.len() >= 512 || best_score == i16::MIN {
            return None;
        }
        proof {
            lemma_pushed_wf(play@, m);
        }
        play.push(m);
        // Initially alpha == beta
        let s = match get_best_move_score(
            &mut play,
            should_stop,
            depth - 1,
            1,
            i16::MIN + 1,
            -best_score,
            &mut killer_moves,
        ) {
            Some(s) => s,
            None => return None,
        };
        if s == i16::MIN {
            return None;
        }
        proof {
            lemma_popped_wf(play@, m);
        }
        play.pop(m);
        let score = -s;
        if score > best_score {
            best_score = score;
            best_move = Some(m);
        }
        i += 1;
    }
    Some((best_move, best_score, false))
}

/// Whether deepening the search further is pointless: the move was the only one, or the
/// score shows a mate that can be forced by one side.
pub fn search_settled(best_score: Score, is_only_move: bool) -> (r: bool)
    ensures
        r == (is_only_move || best_score > i16::MAX - 1000 || best_score < i16::MIN + 1000),
{
    is_only_move || best_score > i16::MAX - 1000 || best_score < i16::MIN + 1000
}

proof fn lemma_root_sweep_picks(
    g: GameModel,
    moves: Seq<Move>,
    i: int,
    depth: u8,
    best: Option<Move>,
    best_score: i16,
    killers: Seq<Option<Move>>,
    room: nat,
)
    requires
        0 <= i,
        best matches Some(b) ==> moves.contains(b),
    ensures
        root_sweep(g, moves, i, depth, best, best_score, killers, room) matches Some((Some(m), _))
            ==> moves.contains(m),
    decreases moves.len() - i,
{
    if i < moves.len() && room > 0 {
        let m = moves[i];
        assert(moves.contains(m));
        match neg(best_score) {
            Some(nb) => match search(g.pushed(m), (depth - 1) as u8, 1, (i16::MIN + 1) as i16, nb, killers, (room - 1) as nat) {
                Some((s, h, ks)) => match neg(s) {
                    Some(score) => {
                        lemma_root_sweep_picks(h.popped(m), moves, i + 1, depth, Some(m), score, ks, room);
                        lemma_root_sweep_picks(h.popped(m), moves, i + 1, depth, best, best_score, ks, room);
                    },
                    None => {},
                },
                None => {},
            },
            None => {},
        }
    }
}

/// The move that the search picks is one of the moves of the side to move that keep its
/// king safe; without such moves the search picks none.
pub proof fn lemma_best_move_is_legal(g: GameModel, depth: u8)
    ensures
        best_move(g, depth) matches Some((Some(m), _, _)) ==> checked_moves(g).0.contains(m),
        best_move(g, depth) is Some && checked_moves(g).0.len() == 0 ==> best_move(g, depth)
            == Some((None::<Move>, (-i16::MAX) as i16, false)),
{
    let (moves, h) = checked_moves(g);
    if stack_room(g) > 0 && moves.len() != 1 && !(moves.len() >= 2 && depth == 0) {
        let hist = h.history;
        let rest = without_repetition(hist, moves);
        assert forall|x: Move| rest.contains(x) implies moves.contains(x) by {
            let j = choose|j: int| 0 <= j < rest.len() && rest[j] == x;
            let n = hist.len();
            if rest != moves {
                let k = find_move(moves, hist[n - 4], 0)->Some_0;
                lemma_find_move(moves, hist[n - 4], 0);
                if j == k {
                    assert(moves[moves.len() - 1] == x);
                } else {
                    assert(moves[j] == x);
                }
            }
        }
        lemma_root_sweep_picks(
            h,
            rest,
            0,
            depth,
            None,
            (-i16::MAX) as i16,
            Seq::new(32, |i: int| None::<Move>),
            stack_room(h),
        );
        if moves.len() == 0 {
            assert(rest.len() == 0);
        }
    }
}

proof fn lemma_replies_floor(
    g: GameModel,
    moves: Seq<Move>,
    i: int,
    alpha: i16,
    beta: i16,
    room: nat,
    tactical_only: bool,
)
    ensures
        replies(g, moves, i, alpha, beta, room, tactical_only) matches Some((v, h)) ==> v >= alpha,
    decreases moves.len() - i,
{
    if 0 <= i < moves.len() {
        let m = moves[i];
        lemma_replies_floor(g, moves, i + 1, alpha, beta, room, tactical_only);
        if room > 0 {
            match (neg(beta), neg(alpha)) {
                (Some(nb), Some(na)) => match quiescence(g.pushed(m), nb, na, (room - 1) as nat) {
                    Some((s, h)) => match neg(s) {
                        Some(score) => {
                            let a = max_score(alpha, score);
                            lemma_replies_floor(h.popped(m), moves, i + 1, a, beta, room, tactical_only);
                        },
                        None => {},
                    },
                    None => {},
                },
                _ => {},
            }
        }
    }
}

/// The side to move may always stand on its current score: where it has a move, the
/// quiescence search gives no less than that score, nor less than `alpha`.
pub proof fn lemma_quiescence_stands_pat(g: GameModel, alpha: i16, beta: i16, room: nat)
    ensures
        capped(pseudo_moves(g)).len() > 0 ==> (quiescence(g, alpha, beta, room) matches Some((v, h))
            ==> v >= alpha && (side_score(g) matches Some(s) ==> v >= s)),
{
    match side_score(g) {
        Some(current) => {
            let a = max_score(alpha, current);
            lemma_replies_floor(g, capped(pseudo_moves(g)), 0, a, beta, room, true);
        },
        None => {},
    }
}

proof fn lemma_sweep_floor(
    g: GameModel,
    moves: Seq<Move>,
    i: int,
    depth: u8,
    ply: u8,
    alpha: i16,
    beta: i16,
    killers: Seq<Option<Move>>,
    room: nat,
)
    ensures
        sweep(g, moves, i, depth, ply, alpha, beta, killers, room) matches Some((v, h, k)) ==> v
            >= alpha,
    decreases moves.len() - i,
{
    if 0 <= i < moves.len() && room > 0 {
        let m = moves[i];
        match (neg(beta), neg(alpha)) {
            (Some(nb), Some(na)) => match search(
                g.pushed(m),
                (depth - 1) as u8,
                (ply + 1) as u8,
                nb,
                na,
                killers,
                (room - 1) as nat,
            ) {
                Some((s, h, ks)) => match neg(s) {
                    Some(score) => {
                        let a = max_score(alpha, score);
                        lemma_sweep_floor(h.popped(m), moves, i + 1, depth, ply, a, beta, ks, room);
                    },
                    None => {},
                },
                None => {},
            },
            _ => {},
        }
    }
}

/// Where the side to move has two moves or more, the search gives no less than `alpha`: a
/// score below it only ever stands for a position in which the side has one move or none.
pub proof fn lemma_search_floor(
    g: GameModel,
    depth: u8,
    ply: u8,
    alpha: i16,
    beta: i16,
    killers: Seq<Option<Move>>,
    room: nat,
)
    ensures
        depth == 1 && capped(pseudo_moves(g)).len() >= 2 ==> (search(
            g,
            depth,
            ply,
            alpha,
            beta,
            killers,
            room,
        ) matches Some((v, h, k)) ==> v >= alpha),
        depth >= 2 && checked_moves(g).0.len() >= 2 ==> (search(
            g,
            depth,
            ply,
            alpha,
            beta,
            killers,
            room,
        ) matches Some((v, h, k)) ==> v >= alpha),
{
    if depth == 1 {
        lemma_replies_floor(g, capped(pseudo_moves(g)), 0, alpha, beta, room, false);
    } else if depth >= 2 && room > 0 && checked_moves(g).0.len() >= 2 && ply < killers.len() {
        let (moves, g1) = checked_moves(g);
        match killer_first(g1, moves, depth, ply, alpha, beta, killers, room) {
            Some((a, h, ks, rest, cut)) => {
                if !cut {
                    if depth >= 5 {
                        match move_keys(h, rest, 0, seq![], depth, ply, a, beta, ks, room) {
                            Some((keys, h2, ks2)) => {
                                lemma_sweep_floor(h2, moves_by_key(keys, rest), 0, depth, ply, a, beta, ks2, room);
                            },
                            None => {},
                        }
                    } else {
                        lemma_sweep_floor(h, sorted_by_order(rest), 0, depth, ply, a, beta, ks, room);
                    }
                }
            },
            None => {},
        }
    }
}

} // verus!
