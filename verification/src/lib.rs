use vstd::prelude::*;

pub mod arrays;
pub mod chess_game;
pub mod coords;
pub mod fen;
pub mod game_laws;
pub mod gamestate;
pub mod move_laws;
pub mod move_sort;
pub mod move_struct;
pub mod performance_test;
pub mod movegen;
pub mod piece;
pub mod position;
pub mod scores;
pub mod search;
pub mod uci;
pub mod wrap;

verus! {
}
