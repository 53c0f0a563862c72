use osen_chess::board::Board;
use osen_chess::piece::File;
use osen_chess::piece::Piece;
use osen_chess::piece::PieceColor;
use osen_chess::piece::Rank;
use osen_chess::Game;
use osen_chess::GameState;
use osen_chess::GameTurn;
use osen_chess::KingPos;

// check that game state is in progress after initialisation
#[test]
fn init_state() {
    let game = Game::default();

    assert_eq!(game.get_state(), GameState::InProgress);
    assert_eq!(game.get_turn(), GameTurn::White);
    let start = Board::default();
    assert_eq!(game.get_board(), start.squares());
}

#[test]
fn lib_pawn_make_move() {
    let mut board = Board::default();
    board.set_piece_at(&(6, 2), PieceColor::White(Piece::Pawn(false)));

    let king_pos = KingPos::default();
    let mut game = Game::new(GameTurn::White, board, king_pos);
    let m = game.make_move((Rank::G, File::Six), (Rank::H, File::Seven));

    assert_eq!(m, Ok(()));
    assert_eq!(game.get_state(), GameState::InProgress);
}

#[test]
fn white_promote() {
    let mut board = Board::new(None);
    board.set_piece_at(&(0, 1), PieceColor::White(Piece::Pawn(false)));
    let king_pos = KingPos { black: (4, 1), white: (4, 7) };
    let mut game = Game::new(GameTurn::White, board, king_pos);

    let _ = game.make_move((Rank::A, File::Seven), (Rank::A, File::Eight));

    assert_eq!(GameState::Promotion((Rank::A, File::Eight)), game.get_state());

    if let GameState::Promotion(_) = game.get_state() {
        let _ = game.set_promotion(Piece::Queen);
        assert_eq!(GameState::InProgress, game.get_state())
    }
}

#[test]
fn rook_move_test() {
    let mut board = Board::default();
    board.set_piece_at(&(7, 1), PieceColor::White(Piece::Rook));

    let king_pos = KingPos::default();
    let game = Game::new(GameTurn::White, board, king_pos);
    let moves = game.get_possible_moves((Rank::H, File::Seven));

    assert_eq!(
        moves,
        Some(vec![
            (Rank::H, File::Six),
            (Rank::H, File::Five),
            (Rank::H, File::Four),
            (Rank::H, File::Three),
            (Rank::H, File::Eight),
            (Rank::G, File::Seven),
        ])
    )
}

#[test]
fn rook_move_test_black() {
    let mut board = Board::default();
    board.set_piece_at(&(7, 6), PieceColor::Black(Piece::Rook));

    let king_pos = KingPos::default();
    let game = Game::new(GameTurn::Black, board, king_pos);
    let moves = game.get_possible_moves((Rank::H, File::Two));

    assert_eq!(
        moves,
        Some(vec![
            (Rank::H, File::One),
            (Rank::H, File::Three),
            (Rank::H, File::Four),
            (Rank::H, File::Five),
            (Rank::H, File::Six),
            (Rank::G, File::Two),
        ])
    )
}

// A queen harasses a bare king; the pinned pawn in between may not move at
// all, the king steps aside, and the queen then closes in with check.
#[test]
fn check_test() {
    let mut board = Board::new(None);
    let king_pos = KingPos { black: (4, 0), white: (0, 4) };
    board.set_piece_at(&king_pos.white, PieceColor::White(Piece::King));
    board.set_piece_at(&king_pos.black, PieceColor::Black(Piece::King));
    board.set_piece_at(&(1, 4), PieceColor::White(Piece::Pawn(false)));
    board.set_piece_at(&(4, 5), PieceColor::Black(Piece::Queen));
    let mut game = Game::new(GameTurn::Black, board, king_pos);

    let m = game.make_move((Rank::E, File::Three), (Rank::E, File::Four));

    assert_eq!(m, Ok(()));
    assert_eq!(game.get_state(), GameState::InProgress);

    // The white pawn is now pinned against its king: it has no legal moves.
    let p = game.get_possible_moves((Rank::B, File::Four));
    assert_eq!(p, Some(vec![]));

    // So the king steps out of the pin line instead.
    let m = game.make_move((Rank::A, File::Four), (Rank::B, File::Three));
    assert_eq!(m, Ok(()));

    let m = game.make_move((Rank::E, File::Four), (Rank::C, File::Four));

    assert_eq!(m, Ok(()));
    assert_eq!(game.get_state(), GameState::Check);
}

// Black checks the white king on the open king file; White blocks with the
// queen, which resolves the check.
#[test]
fn check_block_test() {
    let mut board = Board::default();
    board.set_piece_at(&(4, 6), PieceColor::Empty);
    board.set_piece_at(&(3, 2), PieceColor::Black(Piece::Queen));
    board.set_piece_at(&(5, 4), PieceColor::White(Piece::Queen));
    let king_pos = KingPos::default();
    let mut game = Game::new(GameTurn::Black, board, king_pos);

    let m = game.make_move((Rank::D, File::Six), (Rank::E, File::Six));

    assert_eq!(m, Ok(()));
    assert_eq!(game.get_state(), GameState::Check);

    let m = game.make_move((Rank::F, File::Four), (Rank::E, File::Four));

    assert_eq!(m, Ok(()));
    assert_eq!(game.get_state(), GameState::InProgress);

    let m = game.make_move((Rank::E, File::Six), (Rank::E, File::Five));

    assert_eq!(m, Ok(()));
    assert_eq!(game.get_state(), GameState::InProgress);
}

#[test]
fn check_knight_test() {
    let mut board = Board::new(None);
    board.set_piece_at(&(0, 4), PieceColor::Black(Piece::King));
    board.set_piece_at(&(3, 3), PieceColor::White(Piece::Knight));
    let king_pos = KingPos { white: (4, 0), black: (0, 4) };
    let mut game = Game::new(GameTurn::White, board, king_pos);

    let _ = game.make_move((Rank::D, File::Five), (Rank::C, File::Three));

    assert_eq!(game.get_state(), GameState::Check)
}

#[test]
fn queen_capture_test() {
    let mut board = Board::new(None);
    let king_pos = KingPos::default();
    board.set_piece_at(&king_pos.white, PieceColor::White(Piece::King));
    board.set_piece_at(&king_pos.black, PieceColor::Black(Piece::King));
    board.set_piece_at(&(4, 1), PieceColor::Black(Piece::Pawn(true)));
    board.set_piece_at(&(4, 5), PieceColor::White(Piece::Queen));

    let mut game = Game::new(GameTurn::White, board, king_pos);

    let p = game.get_possible_moves((Rank::E, File::Three));
    assert!(p.is_some());

    let m = game.make_move((Rank::E, File::Three), (Rank::E, File::Seven));
    let p = game.get_possible_moves((Rank::E, File::Seven));
    assert!(p.is_some());
    assert_eq!(m, Ok(()));
}
