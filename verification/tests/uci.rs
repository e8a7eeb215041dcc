use chess_engine::chess_game::{ChessGame, Players};
use chess_engine::performance_test::{perft, perft_divide};
use chess_engine::uci::play_uci_move;

#[test]
fn legal_uci_moves_are_played() {
    let mut game = ChessGame::default();
    assert!(play_uci_move(&mut game, "e2e4"));
    assert!(play_uci_move(&mut game, "e7e5"));
    assert_eq!(game.len(), 3);
    assert_eq!(game.move_stack.len(), 2);
    assert_eq!(game.current_player, Players::White);
}

#[test]
fn illegal_or_unreadable_moves_stop_the_list() {
    let mut game = ChessGame::default();
    assert!(!play_uci_move(&mut game, "e2e5"));
    assert_eq!(game.len(), 1);
    assert!(!play_uci_move(&mut game, "xx"));
    assert_eq!(game.len(), 1);
    assert!(!play_uci_move(&mut game, "e7e5"));
    assert_eq!(game.move_stack.len(), 0);
}

#[test]
fn the_game_takes_no_more_moves_at_four_hundred_states() {
    let mut game = ChessGame::default();
    let shuffle = ["g1f3", "g8f6", "f3g1", "f6g8"];
    let mut played = 0;
    while play_uci_move(&mut game, shuffle[played % 4]) {
        played += 1;
    }
    assert_eq!(played + 1, 399);
    assert_eq!(game.len(), 400);
}

#[test]
fn divided_counts_add_up() {
    let mut game = ChessGame::default();
    let counts = perft_divide(&mut game, 3);
    assert_eq!(counts.len(), 20);
    assert_eq!(counts.iter().map(|(_, c)| c).sum::<usize>(), 8902);
    let knight = counts.iter().find(|(m, _)| m.uci_notation() == "g1f3").unwrap();
    assert_eq!(knight.1, 440);
}

#[test]
fn counting_leaves_the_game_as_it_was() {
    let mut game =
        ChessGame::new("r3k2r/p1ppqpb1/bn2pnp1/3PN3/1p2P3/2N2Q1p/PPPBBPPP/R3K2R w KQkq -").unwrap();
    let before = game.clone();
    assert_eq!(perft(&mut game, 2), 2039);
    assert_eq!(game.len(), before.len());
    assert_eq!(game.score, before.score);
    assert_eq!(*game.state(), *before.state());
    assert_eq!(game.past_scores, before.past_scores);
    assert_eq!(game.board, before.board);
    assert_eq!(perft(&mut game, 2), 2039);
}
