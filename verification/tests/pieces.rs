use chess_engine::chess_game::{ChessGame, Players};
use chess_engine::gamestate::GameState;
use chess_engine::piece::{Piece, PieceTypes};
use chess_engine::position::Position;

#[test]
fn piece_symbols() {
    let white_king = Piece { piece_type: PieceTypes::King, owner: Players::White };
    let black_pawn = Piece { piece_type: PieceTypes::Pawn, owner: Players::Black };
    assert_eq!(white_king.as_char(), '♔');
    assert_eq!(black_pawn.as_char(), '♟');
    assert_eq!(white_king.as_char_ascii(), "K");
    assert_eq!(black_pawn.as_char_ascii(), "");
    assert_eq!(
        Piece { piece_type: PieceTypes::Knight, owner: Players::Black }.as_char_ascii(),
        "N"
    );
}

#[test]
fn pieces_from_fen_letters() {
    assert_eq!(
        Piece::from_char_ascii('k'),
        Some(Piece { piece_type: PieceTypes::King, owner: Players::Black })
    );
    assert_eq!(
        Piece::from_char_ascii('N'),
        Some(Piece { piece_type: PieceTypes::Knight, owner: Players::White })
    );
    assert_eq!(Piece::from_char_ascii('x'), None);
    assert_eq!(Piece::from_char_ascii('1'), None);
}

#[test]
fn piece_scores_mirror_between_sides() {
    let game = ChessGame::default();
    let white = Piece { piece_type: PieceTypes::Knight, owner: Players::White };
    let black = Piece { piece_type: PieceTypes::Knight, owner: Players::Black };
    let a = Position::new(2, 5).unwrap();
    let b = Position::new(5, 5).unwrap();
    assert_eq!(white.score(a, &game.piece_scores), -black.score(b, &game.piece_scores));
    assert!(white.score(a, &game.piece_scores) > 0);
}

#[test]
fn piece_kind_index() {
    assert_eq!(PieceTypes::Queen.index(), 0);
    assert_eq!(PieceTypes::King.index(), 5);
}

#[test]
fn players_alternate() {
    assert_eq!(Players::White.the_other(), Players::Black);
    assert_eq!(Players::Black.the_other(), Players::White);
    assert_eq!(Players::White.sign(), 1);
    assert_eq!(Players::Black.sign(), -1);
}

#[test]
fn positions() {
    assert_eq!(Position::new(8, 0), None);
    assert_eq!(Position::new(0, -1), None);
    let p = Position::new(3, 4).unwrap();
    assert_eq!(p.row(), 3);
    assert_eq!(p.col(), 4);
    assert_eq!(p.as_usize(), 28);
    assert_eq!(p.add((1, -1)), Position::new(4, 3));
    assert_eq!(p.add((5, 0)), None);
    assert_eq!(Position::new_assert(7, 7).as_usize(), 63);
}

#[test]
fn game_state_bits() {
    let mut s = GameState::default();
    assert_eq!(s.en_passant(), 8);
    assert!(!s.white_king_castling());
    s.set_white_king_castling_true();
    s.set_black_queen_castling_true();
    s.set_en_passant(5);
    assert!(s.white_king_castling());
    assert!(s.black_queen_castling());
    assert!(!s.white_queen_castling());
    assert!(!s.black_king_castling());
    assert_eq!(s.en_passant(), 5);
    s.set_white_king_castling_false();
    assert!(!s.white_king_castling());
    s.set_white_queen_castling_true();
    s.set_black_king_castling_true();
    assert!(s.white_queen_castling() && s.black_king_castling());
    s.set_white_queen_castling_false();
    s.set_black_king_castling_false();
    s.set_black_queen_castling_false();
    assert!(!s.white_queen_castling() && !s.black_king_castling() && !s.black_queen_castling());
    assert_eq!(s.en_passant(), 5);
}

#[test]
fn long_steps_leave_the_board() {
    let p = Position::new(3, 4).unwrap();
    assert_eq!(p.add((100, 0)), None);
    assert_eq!(p.add((-128, 127)), None);
    assert_eq!(p.add((4, -4)), Position::new(7, 0));
}

#[test]
fn rook_corners() {
    assert_eq!(Position::white_queen_rook(), Position::new(0, 0).unwrap());
    assert_eq!(Position::white_king_rook(), Position::new(0, 7).unwrap());
    assert_eq!(Position::black_queen_rook(), Position::new(7, 0).unwrap());
    assert_eq!(Position::black_king_rook(), Position::new(7, 7).unwrap());
}

#[test]
fn piece_letters_read_back_as_white_pieces() {
    for t in [PieceTypes::King, PieceTypes::Queen, PieceTypes::Rook, PieceTypes::Bishop, PieceTypes::Knight] {
        let black = Piece { piece_type: t, owner: Players::Black };
        let letter = black.as_char_ascii();
        assert_eq!(letter, Piece { piece_type: t, owner: Players::White }.as_char_ascii());
        let c = letter.chars().next().unwrap();
        assert_eq!(Piece::from_char_ascii(c), Some(Piece { piece_type: t, owner: Players::White }));
    }
}
