use chess_engine::chess_game::{ChessGame, Players};
use chess_engine::move_struct::Move;
use chess_engine::piece::{Piece, PieceTypes};
use chess_engine::position::Position;

fn square(row: i8, col: i8) -> Position {
    Position::new(row, col).unwrap()
}

#[test]
fn uci_of_a_pawn_move_reads_back() {
    let game = ChessGame::default();
    let m = Move::from_uci_notation("e2e4", &game).unwrap();
    assert_eq!(
        m,
        Move::Normal {
            piece: Piece { piece_type: PieceTypes::Pawn, owner: Players::White },
            start: square(1, 4),
            end: square(3, 4),
            captured_piece: None,
        }
    );
    assert_eq!(m.uci_notation(), "e2e4");
    assert_eq!(m.pgn_notation(), "ee4");
}

#[test]
fn castling_in_uci_and_pgn() {
    assert_eq!(Move::CastlingShort { owner: Players::White }.uci_notation(), "e1g1");
    assert_eq!(Move::CastlingShort { owner: Players::Black }.uci_notation(), "e8g8");
    assert_eq!(Move::CastlingLong { owner: Players::White }.uci_notation(), "e1c1");
    assert_eq!(Move::CastlingLong { owner: Players::Black }.uci_notation(), "e8c8");
    assert_eq!(Move::CastlingShort { owner: Players::Black }.pgn_notation(), "O-O");
    assert_eq!(Move::CastlingLong { owner: Players::White }.pgn_notation(), "O-O-O");
}

#[test]
fn castling_is_read_from_its_text() {
    let game = ChessGame::default();
    assert_eq!(
        Move::from_uci_notation("e1g1", &game),
        Ok(Move::CastlingShort { owner: Players::White })
    );
    assert_eq!(
        Move::from_uci_notation("e8c8", &game),
        Ok(Move::CastlingLong { owner: Players::Black })
    );
}

#[test]
fn promotion_letters() {
    let promotion = |new_piece| Move::Promotion {
        owner: Players::White,
        new_piece,
        start: square(6, 0),
        end: square(7, 1),
        captured_piece: Some(Piece { piece_type: PieceTypes::Rook, owner: Players::Black }),
    };
    assert_eq!(promotion(PieceTypes::Queen).uci_notation(), "a7b8q");
    assert_eq!(promotion(PieceTypes::Rook).uci_notation(), "a7b8r");
    assert_eq!(promotion(PieceTypes::Bishop).uci_notation(), "a7b8k");
    assert_eq!(promotion(PieceTypes::Knight).uci_notation(), "a7b8b");
    assert_eq!(promotion(PieceTypes::Queen).pgn_notation(), "xb8=Q");
    assert_eq!(promotion(PieceTypes::Bishop).pgn_notation(), "xb8=K");
    assert_eq!(promotion(PieceTypes::Knight).pgn_notation(), "xb8=B");
}

#[test]
fn promotion_is_read_with_its_letter() {
    let game = ChessGame::new("1r2k3/P7/8/8/8/8/8/4K3 w - - 0 1").unwrap();
    let m = Move::from_uci_notation("a7b8k", &game).unwrap();
    assert_eq!(
        m,
        Move::Promotion {
            owner: Players::White,
            new_piece: PieceTypes::Bishop,
            start: square(6, 0),
            end: square(7, 1),
            captured_piece: Some(Piece { piece_type: PieceTypes::Rook, owner: Players::Black }),
        }
    );
    assert_eq!(m.uci_notation(), "a7b8k");
}

#[test]
fn en_passant_is_read_and_written() {
    let game =
        ChessGame::new("rnbqkbnr/ppp1pppp/8/3pP3/8/8/PPPP1PPP/RNBQKBNR w KQkq d6 0 3").unwrap();
    let m = Move::from_uci_notation("e5d6", &game).unwrap();
    assert_eq!(m, Move::EnPassant { owner: Players::White, start_col: 4, end_col: 3 });
    assert_eq!(m.uci_notation(), "e5d6");
    assert_eq!(m.pgn_notation(), "exd6");
    let black = Move::EnPassant { owner: Players::Black, start_col: 2, end_col: 1 };
    assert_eq!(black.uci_notation(), "c4b3");
    assert_eq!(black.pgn_notation(), "cxb3");
}

#[test]
fn capture_in_pgn() {
    let m = Move::Normal {
        piece: Piece { piece_type: PieceTypes::Knight, owner: Players::White },
        start: square(2, 5),
        end: square(4, 4),
        captured_piece: Some(Piece { piece_type: PieceTypes::Pawn, owner: Players::Black }),
    };
    assert_eq!(m.pgn_notation(), "Nfxe5");
    assert_eq!(m.uci_notation(), "f3e5");
}

#[test]
fn from_uci_errors() {
    let game = ChessGame::default();
    assert_eq!(Move::from_uci_notation("e2e", &game), Err("Invalid move length"));
    assert_eq!(Move::from_uci_notation("e2e4q1", &game), Err("Invalid move length"));
    assert_eq!(Move::from_uci_notation("i2e4", &game), Err("Invalid position"));
    assert_eq!(Move::from_uci_notation("e2e9", &game), Err("Invalid position"));
    assert_eq!(Move::from_uci_notation("e7e8x", &game), Err("Invalid piece"));
    assert_eq!(Move::from_uci_notation("e4e5", &game), Err("Start square is empty"));
}

#[test]
fn pgn_of_a_game() {
    let mut game = ChessGame::default();
    for text in ["e2e4", "e7e5", "g1f3"] {
        let m = Move::from_uci_notation(text, &game).unwrap();
        game.push_history(m);
    }
    assert_eq!(game.get_pgn(), "1. ee4 ee5 2. Ngf3 ");
}

#[test]
fn pgn_numbers_past_nine() {
    let mut game = ChessGame::default();
    let shuffle = ["g1f3", "g8f6", "f3g1", "f6g8"];
    for i in 0..20 {
        let m = Move::from_uci_notation(shuffle[i % 4], &game).unwrap();
        game.push_history(m);
    }
    let pgn = game.get_pgn();
    assert!(pgn.starts_with("1. Ngf3 Ngf6 2. Nfg1 Nfg8 3. "));
    assert!(pgn.ends_with("10. Nfg1 Nfg8 "));
}

#[test]
fn tactical_moves() {
    let pawn = Piece { piece_type: PieceTypes::Pawn, owner: Players::White };
    let quiet = Move::Normal { piece: pawn, start: square(1, 0), end: square(2, 0), captured_piece: None };
    let capture = Move::Normal {
        piece: pawn,
        start: square(1, 0),
        end: square(2, 1),
        captured_piece: Some(Piece { piece_type: PieceTypes::Knight, owner: Players::Black }),
    };
    assert!(!quiet.is_tactical_move());
    assert!(capture.is_tactical_move());
    assert!(Move::EnPassant { owner: Players::White, start_col: 1, end_col: 2 }.is_tactical_move());
    assert!(!Move::CastlingLong { owner: Players::Black }.is_tactical_move());
}

#[test]
fn uci_of_a_game() {
    let mut game = ChessGame::default();
    for text in ["e2e4", "e7e5", "e1e2"] {
        let m = Move::from_uci_notation(text, &game).unwrap();
        game.push_history(m);
    }
    assert_eq!(game.get_uci(), "e2e4 e7e5 e1e2 ");
}

#[test]
fn board_diagram_of_the_start() {
    let game = ChessGame::default();
    let text = game.diagram();
    let lines: Vec<&str> = text.split('\n').collect();
    assert_eq!(lines[0], "");
    assert_eq!(lines[1], "8 |♜|♞|♝|♛|♚|♝|♞|♜|");
    assert_eq!(lines[2], "7 |♟|♟|♟|♟|♟|♟|♟|♟|");
    assert_eq!(lines[3], "6 | | | | | | | | |");
    assert_eq!(lines[8], "1 |♖|♘|♗|♕|♔|♗|♘|♖|");
    assert_eq!(lines[9], "");
    assert_eq!(lines[10], "   a b c d e f g h");
    assert!(text.ends_with("a b c d e f g h\n"));
}

#[test]
fn move_descriptions() {
    let game = ChessGame::default();
    let m = Move::from_uci_notation("e2e4", &game).unwrap();
    assert_eq!(m.description(), "White Pawn from 1 4 to 3 4, captured None ");
    let capture = Move::Normal {
        piece: Piece { piece_type: PieceTypes::Queen, owner: Players::White },
        start: square(0, 3),
        end: square(6, 3),
        captured_piece: Some(Piece { piece_type: PieceTypes::Knight, owner: Players::Black }),
    };
    assert_eq!(
        capture.description(),
        "White Queen from 0 3 to 6 3, captured Some(\"Black Knight\") "
    );
    assert_eq!(Move::CastlingLong { owner: Players::Black }.description(), "castling long Black ");
    assert_eq!(Move::CastlingShort { owner: Players::White }.description(), "castling short White ");
    assert_eq!(
        Move::EnPassant { owner: Players::White, start_col: 1, end_col: 2 }.description(),
        "not supported"
    );
}
