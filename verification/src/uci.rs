use vstd::prelude::*;
use vstd::string::StringSliceAdditionalSpecFns;

use crate::arrays::{move_items, moves_new};
use crate::chess_game::{ChessGame, GameModel};
use crate::move_struct::{parse_uci, Move};
use crate::movegen::checked_moves;
use crate::performance_test::lemma_checked_wf;
use crate::search::{find_in, lemma_find_move};

verus! {

/// The game after `m` is recorded in its history and played, as `push_history` does it.
pub open spec fn recorded(g: GameModel, m: Move) -> GameModel {
    (GameModel { history: g.history.push(m), ..g }).phase_updated().pushed(m)
}

/// The number of states after which a game takes no more moves from a "position" command.
pub open spec fn state_limit() -> int {
    400
}

/// Plays one move of a "position startpos moves ..." command, given in UCI notation: the
/// move is recorded and played only when it is one of the legal moves. Gives whether more
/// moves may follow: not after a move that cannot be read or is not legal, nor once the
/// game holds 400 states.
pub fn play_uci_move(game: &mut ChessGame, text: &str) -> (r: bool)
    requires
        old(game).wf(),
        old(game)@.states.len() < 512,
    ensures
        final(game).wf(),
        match parse_uci(text.spec_bytes(), old(game)@) {
            Err(_) => !r && final(game)@ == old(game)@,
            Ok(m) => if checked_moves(old(game)@).0.contains(m) {
                &&& final(game)@ == recorded(checked_moves(old(game)@).1, m)
                &&& r == (final(game)@.states.len() < state_limit())
            } else {
                !r && final(game)@ == checked_moves(old(game)@).1
            },
        },
{
    let ghost g = game@;
    let m = match Move::from_uci_notation(text, game) {
        Ok(m) => m,
        Err(_) => return false,
    };
    let mut moves = moves_new();
    game.get_moves(&mut moves, true);
    proof {
        lemma_checked_wf(g);
        lemma_find_move(move_items(moves), m, 0);
    }
    match find_in(&moves, m) {
        Some(_) => {
            proof {
                assert(checked_moves(g).0.contains(m));
            }
            game.push_history(m);
            game.len() < 400
        },
        None => {
            proof {
                assert(!checked_moves(g).0.contains(m));
            }
            false
        },
    }
}

} // verus!
