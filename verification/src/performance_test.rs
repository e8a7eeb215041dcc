use vstd::prelude::*;

use crate::arrays::{move_items, moves_get, moves_len, moves_new};
use crate::chess_game::{ChessGame, GameModel};
use crate::move_struct::Move;
use crate::movegen::{all_wf, checked_moves, lemma_filter_wf, lemma_pseudo_wf};

verus! {

// Documentation and source of correct values for perft: https://www.chessprogramming.org/Perft_Results

/// Plays and takes back, at the last level, each of the first `i` moves of `ms`; gives the
/// game left afterwards.
pub open spec fn last_level(g: GameModel, ms: Seq<Move>, i: int) -> GameModel
    decreases i,
{
    if i <= 0 {
        g
    } else {
        let h = last_level(g, ms, i - 1);
        h.pushed_depth_1(ms[i - 1]).popped_depth_1(ms[i - 1])
    }
}

/// The number of move sequences of length `depth` from `g`, and the game left afterwards,
/// counted as `perft` counts them.
pub open spec fn perft_spec(g: GameModel, depth: int) -> (nat, GameModel)
    decreases depth, 1int, 0int,
{
    if depth <= 0 {
        (0, g)
    } else {
        let (ms, h) = checked_moves(g);
        if depth == 1 {
            (ms.len(), last_level(h, ms, ms.len() as int))
        } else {
            perft_fold(h, ms, ms.len() as int, depth)
        }
    }
}

/// Counting below each of the first `i` moves of `ms`: each move is played, the positions
/// `depth - 1` moves deeper are counted, and the move is taken back.
pub open spec fn perft_fold(g: GameModel, ms: Seq<Move>, i: int, depth: int) -> (nat, GameModel)
    decreases depth, 0int, i,
{
    if i <= 0 || depth <= 1 {
        (0, g)
    } else {
        let (count, h) = perft_fold(g, ms, i - 1, depth);
        let p = h.pushed(ms[i - 1]);
        let (c, q) = perft_spec(p, depth - 1);
        (count + c, q.popped(ms[i - 1]))
    }
}

proof fn lemma_last_level_wf(g: GameModel, ms: Seq<Move>, i: int)
    requires
        g.wf(),
        all_wf(ms),
        i <= ms.len(),
    ensures
        last_level(g, ms, i).wf(),
        last_level(g, ms, i).states == g.states,
    decreases i,
{
    reveal(GameModel::pushed_depth_1);
    reveal(GameModel::popped_depth_1);
    if i > 0 {
        lemma_last_level_wf(g, ms, i - 1);
        let h = last_level(g, ms, i - 1);
        let m = ms[i - 1];
        assert(m.wf());
        crate::game_laws::lemma_forward_wf(h, m);
        crate::game_laws::lemma_backward_wf(h.forward_board(m).toggled().toggled(), m);
    }
}

/// Counting leaves the game well formed and its state stack as it was.
pub proof fn lemma_perft_wf(g: GameModel, depth: int)
    requires
        g.wf(),
        g.states.len() + depth <= 512,
    ensures
        perft_spec(g, depth).1.wf(),
        perft_spec(g, depth).1.states == g.states,
    decreases depth, 1int, 0int,
{
    if depth > 0 {
        let ms = checked_moves(g).0;
        lemma_pseudo_wf(g);
        lemma_filter_wf(
            g,
            crate::movegen::capped(crate::movegen::pseudo_moves(g)),
            crate::movegen::capped(crate::movegen::pseudo_moves(g)).len() as int,
            g.current,
            g.king_of(g.current),
            crate::movegen::attacked(g, g.king_of(g.current), g.current),
        );
        let h = checked_moves(g).1;
        lemma_checked_wf(g);
        if depth == 1 {
            lemma_last_level_wf(h, ms, ms.len() as int);
        } else {
            lemma_fold_wf(h, ms, ms.len() as int, depth);
        }
    }
}

proof fn lemma_fold_wf(g: GameModel, ms: Seq<Move>, i: int, depth: int)
    requires
        g.wf(),
        g.states.len() + depth <= 512,
        all_wf(ms),
        i <= ms.len(),
    ensures
        perft_fold(g, ms, i, depth).1.wf(),
        perft_fold(g, ms, i, depth).1.states == g.states,
    decreases depth, 0int, i,
{
    if i > 0 && depth > 1 {
        lemma_fold_wf(g, ms, i - 1, depth);
        let h = perft_fold(g, ms, i - 1, depth).1;
        let m = ms[i - 1];
        assert(m.wf());
        crate::game_laws::lemma_pushed_wf(h, m);
        let p = h.pushed(m);
        lemma_perft_wf(p, depth - 1);
        let q = perft_spec(p, depth - 1).1;
        crate::game_laws::lemma_popped_wf(q, m);
        assert(q.popped(m).states =~= g.states);
    }
}

/// The moves kept by the king-safety check name squares on the board, and the check leaves
/// the game well formed with its state stack.
pub proof fn lemma_checked_wf(g: GameModel)
    requires
        g.wf(),
        g.states.len() < 512,
    ensures
        all_wf(checked_moves(g).0),
        checked_moves(g).1.wf(),
        checked_moves(g).1.states == g.states,
{
    let ms = crate::movegen::capped(crate::movegen::pseudo_moves(g));
    let king = g.king_of(g.current);
    let chk = crate::movegen::attacked(g, king, g.current);
    lemma_pseudo_wf(g);
    lemma_filter_wf(g, ms, ms.len() as int, g.current, king, chk);
    crate::movegen::lemma_filter_kept_wf(g, ms, ms.len() as int, g.current, king, chk);
}

proof fn lemma_fold_mono(g: GameModel, ms: Seq<Move>, i: int, j: int, depth: int)
    requires
        0 <= i <= j,
    ensures
        perft_fold(g, ms, i, depth).0 <= perft_fold(g, ms, j, depth).0,
    decreases j - i,
{
    if i < j {
        lemma_fold_mono(g, ms, i, j - 1, depth);
    }
}

/// Performance Test: counts the move sequences of length `depth` (at least 1) from the
/// current position, checking the king's safety at every level.
pub fn perft(game: &mut ChessGame, depth: u8) -> (r: usize)
    requires
        old(game).wf(),
        depth >= 1,
        old(game)@.states.len() + depth <= 512,
        perft_spec(old(game)@, depth as int).0 <= usize::MAX,
    ensures
        r == perft_spec(old(game)@, depth as int).0,
        final(game)@ == perft_spec(old(game)@, depth as int).1,
        final(game).wf(),
        old(game)@.consistent() && old(game)@.scores_consistent() ==> final(game)@ == old(game)@,
    decreases depth,
{
    let ghost g = game@;
    proof {
        if g.consistent() && g.scores_consistent() {
            crate::move_laws::lemma_perft_restores(g, depth as int);
        }
    }
    let mut moves = moves_new();
    game.get_moves(&mut moves, true);
    proof {
        lemma_checked_wf(g);
    }
    let ghost ms = move_items(moves);
    let ghost h = game@;
    let len = moves_len(&moves);
    if depth == 1 {
        let mut i: usize = 0;
        let mut count: usize = 0;
        while i < len
            invariant
                i <= len,
                len == ms.len(),
                ms == move_items(moves),
                all_wf(ms),
                h.wf(),
                count == i,
                game.wf(),
                game@ == last_level(h, ms, i as int),
            decreases len - i,
        {
            proof {
                lemma_last_level_wf(h, ms, i as int);
            }
            let m = moves_get(&moves, i);
            game.push_depth_1(m);
            count += 1;
            game.pop_depth_1(m);
            i += 1;
        }
        return len;
    }
    let mut count: usize = 0;
    let mut i: usize = 0;
    proof {
        lemma_fold_mono(h, ms, 0, len as int, depth as int);
    }
    while i < len
        invariant
            i <= len,
            len == ms.len(),
            ms == move_items(moves),
            all_wf(ms),
            h.wf(),
            h.states == g.states,
            depth >= 2,
            g.states.len() + depth <= 512,
            perft_fold(h, ms, len as int, depth as int).0 <= usize::MAX,
            count == perft_fold(h, ms, i as int, depth as int).0,
            game.wf(),
            game@ == perft_fold(h, ms, i as int, depth as int).1,
        decreases len - i,
    {
        proof {
            lemma_fold_wf(h, ms, i as int, depth as int);
            lemma_fold_mono(h, ms, i + 1, len as int, depth as int);
            crate::game_laws::lemma_pushed_wf(game@, ms[i as int]);
            lemma_perft_wf(game@.pushed(ms[i as int]), depth - 1);
        }
        let m = moves_get(&moves, i);
        game.push(m);
        let c = perft(game, depth - 1);
        game.pop(m);
        count += c;
        i += 1;
    }
    count
}

/// Counts, for each move of the side to move, the move sequences of length `depth` that
/// start with it (`perft` one level down), in the order of the moves.
pub fn perft_divide(game: &mut ChessGame, depth: u8) -> (r: Vec<(Move, usize)>)
    requires
        old(game).wf(),
        depth >= 2,
        old(game)@.states.len() + depth <= 512,
        perft_spec(old(game)@, depth as int).0 <= usize::MAX,
    ensures
        final(game).wf(),
        final(game)@ == perft_spec(old(game)@, depth as int).1,
        old(game)@.consistent() && old(game)@.scores_consistent() ==> final(game)@ == old(game)@,
        r@.len() == checked_moves(old(game)@).0.len(),
        forall|i: int|
            0 <= i < r@.len() ==> {
                let (ms, h) = checked_moves(old(game)@);
                let before = perft_fold(h, ms, i, depth as int).1;
                &&& (#[trigger] r@[i]).0 == ms[i]
                &&& r@[i].1 == perft_spec(before.pushed(ms[i]), depth - 1).0
            },
{
    let ghost g = game@;
    proof {
        if g.consistent() && g.scores_consistent() {
            crate::move_laws::lemma_perft_restores(g, depth as int);
        }
    }
    let mut moves = moves_new();
    game.get_moves(&mut moves, true);
    proof {
        lemma_checked_wf(g);
    }
    let ghost ms = move_items(moves);
    let ghost h = game@;
    let len = moves_len(&moves);
    let mut counts: Vec<(Move, usize)> = Vec::new();
    let mut i: usize = 0;
    proof {
        lemma_fold_mono(h, ms, 0, len as int, depth as int);
    }
    while i < len
        invariant
            i <= len,
            len == ms.len(),
            ms == move_items(moves),
            (ms, h) == checked_moves(g),
            all_wf(ms),
            h.wf(),
            h.states == g.states,
            depth >= 2,
            g.states.len() + depth <= 512,
            perft_fold(h, ms, len as int, depth as int).0 <= usize::MAX,
            game.wf(),
            game@ == perft_fold(h, ms, i as int, depth as int).1,
            counts@.len() == i,
            forall|j: int|
                0 <= j < i ==> (#[trigger] counts@[j]).0 == ms[j] && counts@[j].1 == perft_spec(
                    perft_fold(h, ms, j, depth as int).1.pushed(ms[j]),
                    depth - 1,
                ).0,
        decreases len - i,
    {
        proof {
            lemma_fold_wf(h, ms, i as int, depth as int);
            lemma_fold_mono(h, ms, i + 1, len as int, depth as int);
            crate::game_laws::lemma_pushed_wf(game@, ms[i as int]);
            lemma_perft_wf(game@.pushed(ms[i as int]), depth - 1);
        }
        let m = moves_get(&moves, i);
        game.push(m);
        let c = perft(game, depth - 1);
        game.pop(m);
        counts.push((m, c));
        i += 1;
    }
    counts
}

} // verus!
