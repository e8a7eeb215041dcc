use std::cmp::Ordering;
use std::sync::atomic::AtomicBool;

use chess_engine::chess_game::{ChessGame, Players};
use chess_engine::move_sort::{simple_move_compare, sort_by_keys, sort_moves};
use chess_engine::move_struct::Move;
use chess_engine::piece::{Piece, PieceTypes};
use chess_engine::position::Position;
use chess_engine::search::{get_best_move_entry, search_settled};

fn square(row: i8, col: i8) -> Position {
    Position::new(row, col).unwrap()
}

fn normal(t: PieceTypes, captured: Option<PieceTypes>) -> Move {
    Move::Normal {
        piece: Piece { piece_type: t, owner: Players::White },
        start: square(3, 3),
        end: square(4, 4),
        captured_piece: captured.map(|c| Piece { piece_type: c, owner: Players::Black }),
    }
}

#[test]
fn finds_mate_in_one() {
    let game = ChessGame::new("6k1/5ppp/8/8/8/8/5PPP/R5K1 w - - 0 1").unwrap();
    let stop = AtomicBool::new(false);
    let (best, score, only) = get_best_move_entry(game, &stop, 3).unwrap();
    assert_eq!(best.unwrap().uci_notation(), "a1a8");
    assert!(!only);
    assert!(score > i16::MAX - 1000);
    assert!(search_settled(score, only));
}

#[test]
fn takes_a_free_queen() {
    let game = ChessGame::new("4k3/8/8/3q4/8/8/8/3RK3 w - - 0 1").unwrap();
    let stop = AtomicBool::new(false);
    let (best, score, _) = get_best_move_entry(game, &stop, 3).unwrap();
    assert_eq!(best.unwrap().uci_notation(), "d1d5");
    assert!(score > 0);
}

#[test]
fn a_single_move_is_played_at_once() {
    // The black king in the corner can only take the rook next to it.
    let game = ChessGame::new("kR6/8/1K6/8/8/8/8/8 b - - 0 1").unwrap();
    let stop = AtomicBool::new(true);
    let (best, score, only) = get_best_move_entry(game, &stop, 4).unwrap();
    assert_eq!(best.unwrap().uci_notation(), "a8b8");
    assert_eq!(score, 0);
    assert!(only);
}

#[test]
fn a_stopped_search_gives_nothing() {
    let game = ChessGame::default();
    let stop = AtomicBool::new(true);
    assert_eq!(get_best_move_entry(game, &stop, 5), None);
}

#[test]
fn settling() {
    assert!(search_settled(0, true));
    assert!(!search_settled(0, false));
    assert!(!search_settled(i16::MAX - 1000, false));
    assert!(search_settled(i16::MAX - 999, false));
    assert!(search_settled(i16::MIN + 999, false));
    assert!(!search_settled(i16::MIN + 1000, false));
}

#[test]
fn move_order_puts_big_captures_first() {
    let pawn_takes_queen = normal(PieceTypes::Pawn, Some(PieceTypes::Queen));
    let queen_takes_queen = normal(PieceTypes::Queen, Some(PieceTypes::Queen));
    let pawn_takes_rook = normal(PieceTypes::Pawn, Some(PieceTypes::Rook));
    let queen_moves = normal(PieceTypes::Queen, None);
    let pawn_moves = normal(PieceTypes::Pawn, None);
    assert_eq!(simple_move_compare(&pawn_takes_queen, &pawn_takes_rook), Ordering::Less);
    assert_eq!(simple_move_compare(&pawn_takes_queen, &queen_takes_queen), Ordering::Less);
    assert_eq!(simple_move_compare(&queen_takes_queen, &pawn_takes_queen), Ordering::Greater);
    assert_eq!(simple_move_compare(&pawn_takes_rook, &queen_moves), Ordering::Less);
    assert_eq!(simple_move_compare(&pawn_moves, &pawn_takes_rook), Ordering::Greater);
    assert_eq!(simple_move_compare(&queen_moves, &pawn_moves), Ordering::Less);
    assert_eq!(simple_move_compare(&queen_moves, &queen_moves), Ordering::Equal);
    let castling = Move::CastlingShort { owner: Players::White };
    assert_eq!(simple_move_compare(&queen_moves, &castling), Ordering::Less);
    assert_eq!(simple_move_compare(&castling, &queen_moves), Ordering::Greater);
    let sorted = sort_moves(&vec![castling, pawn_moves, queen_moves, pawn_takes_rook, pawn_takes_queen]);
    assert_eq!(sorted, vec![pawn_takes_queen, pawn_takes_rook, queen_moves, pawn_moves, castling]);
}

#[test]
fn keys_order_moves_stably() {
    let a = normal(PieceTypes::Queen, None);
    let b = normal(PieceTypes::Rook, None);
    let c = normal(PieceTypes::Knight, None);
    let d = normal(PieceTypes::Pawn, None);
    let sorted = sort_by_keys(&vec![5, -3, 5, 0], &vec![a, b, c, d]);
    assert_eq!(sorted, vec![b, d, a, c]);
}

#[test]
fn a_move_that_would_repeat_the_position_is_not_tried() {
    let fen = "k2r4/8/8/8/3Q4/8/8/7K b - - 0 1";
    let rook_takes_queen = Move::Normal {
        piece: Piece { piece_type: PieceTypes::Rook, owner: Players::Black },
        start: square(7, 3),
        end: square(3, 3),
        captured_piece: Some(Piece { piece_type: PieceTypes::Queen, owner: Players::White }),
    };
    let stop = AtomicBool::new(false);

    let game = ChessGame::new(fen).unwrap();
    let (best, _, _) = get_best_move_entry(game, &stop, 2).unwrap();
    assert_eq!(best, Some(rook_takes_queen));

    // The last move played repeats the one four moves before it: the move played three
    // moves before the last is left out.
    let mut game = ChessGame::new(fen).unwrap();
    let shuffle = Move::Normal {
        piece: Piece { piece_type: PieceTypes::King, owner: Players::White },
        start: square(0, 7),
        end: square(0, 6),
        captured_piece: None,
    };
    game.move_stack = vec![shuffle, rook_takes_queen, shuffle, shuffle, shuffle];
    let (best, _, _) = get_best_move_entry(game, &stop, 2).unwrap();
    assert!(best.is_some());
    assert_ne!(best, Some(rook_takes_queen));
}

#[test]
fn depth_zero_still_plays_a_forced_move() {
    let game = ChessGame::new("kR6/8/1K6/8/8/8/8/8 b - - 0 1").unwrap();
    let stop = AtomicBool::new(false);
    let (best, score, only) = get_best_move_entry(game, &stop, 0).unwrap();
    assert_eq!(best.unwrap().uci_notation(), "a8b8");
    assert_eq!(score, 0);
    assert!(only);
    let stop = AtomicBool::new(false);
    assert_eq!(get_best_move_entry(ChessGame::default(), &stop, 0), None);
}
