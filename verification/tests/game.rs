use arrayvec::ArrayVec;
use chess_engine::chess_game::{ChessGame, GamePhase, Players};
use chess_engine::fen::FenError;
use chess_engine::move_struct::Move;
use chess_engine::piece::{Piece, PieceTypes};
use chess_engine::position::Position;

const START: &str = "rnbqkbnr/pppppppp/8/8/8/8/PPPPPPPP/RNBQKBNR w KQkq - 0 1";

fn square(row: i8, col: i8) -> Position {
    Position::new(row, col).unwrap()
}

fn same_board(a: &ChessGame, b: &ChessGame) -> bool {
    (0..8).all(|r| (0..8).all(|c| a.get_position(square(r, c)) == b.get_position(square(r, c))))
}

fn fen_error(fen: &str) -> FenError {
    match ChessGame::new(fen) {
        Ok(_) => panic!("accepted: {}", fen),
        Err(e) => e,
    }
}

#[test]
fn default_is_the_start_position() {
    let a = ChessGame::default();
    let b = ChessGame::new(START).unwrap();
    assert!(same_board(&a, &b));
    assert_eq!(a.current_player, Players::White);
    assert_eq!(a.score, b.score);
    assert_eq!(a.len(), 1);
    assert_eq!(*a.state(), *b.state());
    assert!(a.state().white_king_castling());
    assert!(a.state().black_queen_castling());
    assert_eq!(a.state().en_passant(), 8);
    assert_eq!(a.get_king_position(Players::White), square(0, 4));
    assert_eq!(a.get_king_position(Players::Black), square(7, 4));
    assert_eq!(
        a.get_position(square(0, 3)),
        Some(Piece { piece_type: PieceTypes::Queen, owner: Players::White })
    );
    assert_eq!(a.get_position(square(4, 4)), None);
    assert_eq!(a.phase, GamePhase::Opening);
}

#[test]
fn fen_errors() {
    assert_eq!(fen_error(""), FenError::MissingBoard);
    assert_eq!(fen_error("8/8/8/8/8/8/8/8/8 w - -"), FenError::TooManyRows);
    assert_eq!(fen_error("rnbqkbnrr/8/8/8/8/8/8/4K3 w - -"), FenError::TooManyColumns);
    assert_eq!(fen_error("4k3/8/8/8/8/8/8/4K2x w - -"), FenError::InvalidPiece);
    assert_eq!(fen_error("4k3/8/8/8/8/8/8/4K2? w - -"), FenError::UnknownCharacter);
    assert_eq!(fen_error("4k3/8/8/8/8/8/8/4K3"), FenError::MissingPlayer);
    assert_eq!(fen_error("4k3/8/8/8/8/8/8/4K3 x - -"), FenError::InvalidPlayer);
    assert_eq!(fen_error("4k3/8/8/8/8/8/8/4K3 w"), FenError::MissingCastlingRights);
    assert_eq!(fen_error("4k3/8/8/8/8/8/8/4K3 w KQxq -"), FenError::InvalidCastlingRight);
    assert_eq!(fen_error("4k3/8/8/8/8/8/8/4K3 w KQkq"), FenError::MissingEnPassant);
    assert_eq!(fen_error("4k3/8/8/8/8/8/8/4K3 w - i3"), FenError::InvalidEnPassantSquare);
    assert_eq!(fen_error("4k3/8/8/8/8/8/8/8 w - -"), FenError::WhiteKingNotFound);
    assert_eq!(fen_error("8/8/8/8/8/8/8/4K3 w - -"), FenError::BlackKingNotFound);
    assert_eq!(FenError::MissingBoard.message(), "Missing board");
    assert_eq!(FenError::UnknownCharacter.message(), "Unknown character met");
}

#[test]
fn fen_fields_are_read() {
    let game = ChessGame::new("4k2r/8/8/3pP3/8/8/8/R3K3 b Qk d6").unwrap();
    assert_eq!(game.current_player, Players::Black);
    assert!(game.state().white_queen_castling());
    assert!(!game.state().white_king_castling());
    assert!(game.state().black_king_castling());
    assert!(!game.state().black_queen_castling());
    assert_eq!(game.state().en_passant(), 3);
    assert!(matches!(ChessGame::try_new(START), Some(Ok(_))));
}

#[test]
fn few_pieces_start_the_endgame() {
    let game = ChessGame::new("4k3/8/8/8/8/8/8/4K3 w - -").unwrap();
    assert_eq!(game.phase, GamePhase::Endgame);
    let mut start = ChessGame::default();
    start.update_phase();
    assert_eq!(start.phase, GamePhase::Opening);
}

#[test]
fn start_position_has_twenty_moves() {
    let mut game = ChessGame::default();
    let mut moves = ArrayVec::new();
    game.get_moves(&mut moves, true);
    assert_eq!(moves.len(), 20);
    game.get_moves(&mut moves, false);
    assert_eq!(moves.len(), 20);
}

#[test]
fn moves_into_check_are_removed() {
    // The knight on e2 is pinned to its king by the rook on e8: none of its moves is kept.
    let mut game = ChessGame::new("4r1k1/8/8/8/8/8/4N3/3QK3 w - -").unwrap();
    let mut all = ArrayVec::new();
    game.get_moves(&mut all, false);
    let mut safe = ArrayVec::new();
    game.get_moves(&mut safe, true);
    let from_e2 = |m: &Move| matches!(m, Move::Normal { start, .. } if *start == square(1, 4));
    assert_eq!(all.iter().filter(|m| from_e2(m)).count(), 6);
    assert_eq!(safe.iter().filter(|m| from_e2(m)).count(), 0);
    assert_eq!(safe.len() + 6, all.len());
}

#[test]
fn no_king_means_no_moves() {
    let mut game = ChessGame::default();
    game.king_positions[0] = square(3, 3);
    assert!(!game.king_exists(Players::White));
    assert!(game.king_exists(Players::Black));
    let mut moves = ArrayVec::new();
    game.get_moves(&mut moves, false);
    assert_eq!(moves.len(), 0);
}

#[test]
fn squares_attacked_by_pawns() {
    let game = ChessGame::default();
    assert!(game.is_targeted(square(5, 4), Players::White));
    assert!(!game.is_targeted(square(2, 4), Players::White));
    assert!(game.is_targeted(square(2, 4), Players::Black));
    assert!(!game.is_targeted(square(4, 4), Players::Black));
}

#[test]
fn pop_undoes_push_on_every_start_move() {
    let mut game = ChessGame::default();
    let mut moves = ArrayVec::new();
    game.get_moves(&mut moves, true);
    for m in moves.iter() {
        let before = game.clone();
        game.push(*m);
        assert_eq!(game.current_player, Players::Black);
        assert_eq!(game.len(), 2);
        game.pop(*m);
        assert!(same_board(&game, &before));
        assert_eq!(game.score, before.score);
        assert_eq!(game.len(), 1);
        assert_eq!(game.current_player, Players::White);
    }
}

#[test]
fn castling_moves_king_and_rook_and_back() {
    let mut game = ChessGame::new("r3k2r/8/8/8/8/8/8/R3K2R w KQkq -").unwrap();
    let before = game.clone();
    let m = Move::CastlingShort { owner: Players::White };
    game.push(m);
    assert_eq!(
        game.get_position(square(0, 6)),
        Some(Piece { piece_type: PieceTypes::King, owner: Players::White })
    );
    assert_eq!(
        game.get_position(square(0, 5)),
        Some(Piece { piece_type: PieceTypes::Rook, owner: Players::White })
    );
    assert_eq!(game.get_king_position(Players::White), square(0, 6));
    assert!(!game.state().white_king_castling());
    assert!(!game.state().white_queen_castling());
    assert!(game.state().black_king_castling());
    game.pop(m);
    assert!(same_board(&game, &before));
    assert_eq!(game.get_king_position(Players::White), square(0, 4));
    assert!(game.state().white_king_castling());
}

#[test]
fn double_pawn_step_opens_en_passant() {
    let mut game = ChessGame::default();
    let m = Move::from_uci_notation("d2d4", &game).unwrap();
    game.push(m);
    assert_eq!(game.state().en_passant(), 3);
    let m2 = Move::from_uci_notation("g8f6", &game).unwrap();
    game.push(m2);
    assert_eq!(game.state().en_passant(), 8);
}

#[test]
fn depth_1_push_changes_the_board_only() {
    let mut game = ChessGame::default();
    let before = game.clone();
    let m = Move::from_uci_notation("g1f3", &game).unwrap();
    game.push_depth_1(m);
    assert_eq!(
        game.get_position(square(2, 5)),
        Some(Piece { piece_type: PieceTypes::Knight, owner: Players::White })
    );
    assert_eq!(game.current_player, Players::Black);
    assert_eq!(game.len(), 1);
    game.pop_depth_1(m);
    assert!(same_board(&game, &before));
    assert_eq!(game.score, before.score);
    assert_eq!(game.current_player, Players::White);
}

#[test]
fn capture_changes_the_score() {
    let mut game = ChessGame::new("4k3/8/8/3p4/4N3/8/8/4K3 w - -").unwrap();
    let before = game.score;
    let m = Move::from_uci_notation("e4d5", &game).unwrap();
    assert!(m.is_tactical_move());
    game.push(m);
    assert!(game.score > before);
    game.pop(m);
    assert_eq!(game.score, before);
}

#[test]
fn pop_history_takes_back_the_last_recorded_move() {
    let mut game = ChessGame::default();
    assert_eq!(game.pop_history(), None);
    let before = game.clone();
    let m = Move::from_uci_notation("b1c3", &game).unwrap();
    game.push_history(m);
    assert_eq!(game.move_stack.len(), 1);
    assert_eq!(game.pop_history(), Some(m));
    assert_eq!(game.move_stack.len(), 0);
    assert!(same_board(&game, &before));
    assert_eq!(game.score, before.score);
    assert_eq!(game.len(), 1);
    assert_eq!(game.current_player, Players::White);
}
