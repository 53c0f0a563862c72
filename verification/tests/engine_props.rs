use osen_chess::board::Board;
use osen_chess::piece::File;
use osen_chess::piece::Piece;
use osen_chess::piece::PieceColor;
use osen_chess::piece::Rank;
use osen_chess::ChessError;
use osen_chess::Game;
use osen_chess::GameState;
use osen_chess::GameTurn;
use osen_chess::KingPos;

fn bare_kings_board() -> (Board, KingPos) {
    let mut board = Board::new(None);
    let king_pos = KingPos::default();
    board.set_piece_at(&king_pos.white, PieceColor::White(Piece::King));
    board.set_piece_at(&king_pos.black, PieceColor::Black(Piece::King));
    (board, king_pos)
}

// From the default position, the white pawn's double step is accepted, the
// game stays in progress, and the turn passes to Black.
#[test]
fn opening_double_step_passes_turn() {
    let mut game = Game::default();
    let m = game.make_move((Rank::A, File::Two), (Rank::A, File::Four));
    assert_eq!(m, Ok(()));
    assert_eq!(game.get_state(), GameState::InProgress);
    assert_eq!(game.get_turn(), GameTurn::Black);
    assert_eq!(
        game.get_piece_at(&(Rank::A, File::Four)),
        PieceColor::White(Piece::Pawn(false))
    );
}

// Selecting the opponent's piece while it is not their turn is rejected
// without touching the game.
#[test]
fn mismatched_color_rejected() {
    let mut game = Game::default();
    let before: Vec<PieceColor> = game.get_board().to_vec();
    let m = game.make_move((Rank::A, File::Seven), (Rank::A, File::Six));
    assert_eq!(m, Err(ChessError::MismatchedColor));
    assert_eq!(game.get_board().to_vec(), before);
    assert_eq!(game.get_turn(), GameTurn::White);
    assert_eq!(game.get_state(), GameState::InProgress);
}

// Selecting an empty square is rejected with its own error.
#[test]
fn empty_space_rejected() {
    let mut game = Game::default();
    let m = game.make_move((Rank::D, File::Four), (Rank::D, File::Five));
    assert_eq!(m, Err(ChessError::EmptySpace));
}

// While a promotion is pending, ordinary moves are rejected; resolving a
// promotion outside the promotion phase is rejected too.
#[test]
fn invalid_game_state_rejected() {
    let mut game = Game::default();
    assert_eq!(game.set_promotion(Piece::Queen), Err(ChessError::InvalidGameState));

    let mut board = Board::new(None);
    board.set_piece_at(&(0, 1), PieceColor::White(Piece::Pawn(false)));
    let king_pos = KingPos { black: (4, 1), white: (4, 7) };
    let mut game = Game::new(GameTurn::White, board, king_pos);
    let m = game.make_move((Rank::A, File::Seven), (Rank::A, File::Eight));
    assert_eq!(m, Ok(()));
    assert!(matches!(game.get_state(), GameState::Promotion(_)));
    let m = game.make_move((Rank::E, File::One), (Rank::E, File::Two));
    assert_eq!(m, Err(ChessError::InvalidGameState));
}

// Out-of-range coordinate indices are rejected, in-range ones round-trip.
#[test]
fn coordinate_conversions() {
    assert_eq!(Rank::A.index(), 0);
    assert_eq!(Rank::H.index(), 7);
    assert_eq!(File::One.index(), 7);
    assert_eq!(File::Eight.index(), 0);
    assert_eq!(Rank::from_index(3), Ok(Rank::D));
    assert_eq!(File::from_index(3), Ok(File::Five));
    assert_eq!(Rank::from_index(8), Err(ChessError::OutOfBounds));
    assert_eq!(File::from_index(200), Err(ChessError::OutOfBounds));
    for i in 0..8u8 {
        let r = Rank::from_index(i).unwrap();
        assert_eq!(r.index(), i);
        let f = File::from_index(i).unwrap();
        assert_eq!(f.index(), i);
    }
}

// The movement tables hold the documented direction vectors.
#[test]
fn move_set_values() {
    assert_eq!(
        Piece::Pawn(true).get_move_set(&GameTurn::White),
        vec![(-1, -1), (1, -1), (0, -1), (0, -2)]
    );
    assert_eq!(
        Piece::Pawn(false).get_move_set(&GameTurn::Black),
        vec![(-1, 1), (1, 1), (0, 1)]
    );
    assert_eq!(
        Piece::Rook.get_move_set(&GameTurn::White),
        vec![(0, 1), (1, 0), (0, -1), (-1, 0)]
    );
    assert_eq!(
        Piece::Pawn(true).get_capture_set(&GameTurn::Black),
        vec![(-1, 1), (1, 1)]
    );
}

// The promotion handshake: reaching the far rank parks the game in
// Promotion without passing the turn; resolving it passes the turn.
#[test]
fn promotion_keeps_turn_until_resolved() {
    let mut board = Board::new(None);
    board.set_piece_at(&(0, 1), PieceColor::White(Piece::Pawn(false)));
    let king_pos = KingPos { black: (4, 1), white: (4, 7) };
    let mut game = Game::new(GameTurn::White, board, king_pos);

    let m = game.make_move((Rank::A, File::Seven), (Rank::A, File::Eight));
    assert_eq!(m, Ok(()));
    assert_eq!(game.get_state(), GameState::Promotion((Rank::A, File::Eight)));
    assert_eq!(game.get_turn(), GameTurn::White);

    let m = game.set_promotion(Piece::Queen);
    assert_eq!(m, Ok(()));
    assert_eq!(game.get_turn(), GameTurn::Black);
    assert_eq!(game.get_state(), GameState::InProgress);
    assert_eq!(
        game.get_piece_at(&(Rank::A, File::Eight)),
        PieceColor::White(Piece::Queen)
    );
}

// Only pawns promote: a queen landing on the far rank does not open the
// promotion phase. Here it checks the enemy king along the open rank
// instead.
#[test]
fn queen_checks_along_open_rank() {
    let (mut board, king_pos) = bare_kings_board();
    board.set_piece_at(&(0, 3), PieceColor::White(Piece::Queen));
    let mut game = Game::new(GameTurn::White, board, king_pos);

    let m = game.make_move((Rank::A, File::Five), (Rank::A, File::Eight));
    assert_eq!(m, Ok(()));
    assert_eq!(game.get_state(), GameState::Check);
    assert_eq!(game.get_turn(), GameTurn::Black);
}

// A pinned piece may not step off the pin line: the move is absent from the
// query and rejected by make_move, and the rejection mutates nothing.
#[test]
fn self_check_prevention() {
    let (mut board, king_pos) = bare_kings_board();
    board.set_piece_at(&(4, 2), PieceColor::Black(Piece::Rook));
    board.set_piece_at(&(4, 5), PieceColor::White(Piece::Rook));
    let mut game = Game::new(GameTurn::Black, board, king_pos);

    let moves = game.get_possible_moves((Rank::E, File::Six)).unwrap();
    assert!(!moves.contains(&(Rank::D, File::Six)));
    assert!(moves.contains(&(Rank::E, File::Five)));

    let before: Vec<PieceColor> = game.get_board().to_vec();
    let m = game.make_move((Rank::E, File::Six), (Rank::D, File::Six));
    assert_eq!(m, Err(ChessError::InvalidMove));
    assert_eq!(game.get_board().to_vec(), before);
    assert_eq!(game.get_turn(), GameTurn::Black);
}

// Moving the king updates the cached king square together with the board.
#[test]
fn king_move_updates_cache() {
    let (board, king_pos) = bare_kings_board();
    let mut game = Game::new(GameTurn::White, board, king_pos);

    let m = game.make_move((Rank::E, File::One), (Rank::D, File::One));
    assert_eq!(m, Ok(()));
    assert_eq!(game.get_king_pos(&GameTurn::White), (3, 7));
    assert_eq!(
        game.get_piece_at(&(Rank::D, File::One)),
        PieceColor::White(Piece::King)
    );
    assert_eq!(game.get_piece_at(&(Rank::E, File::One)), PieceColor::Empty);
}

// Pawns never capture straight ahead, and the double step needs both
// squares ahead to be empty.
#[test]
fn pawn_forward_blocking() {
    let (mut board, king_pos) = bare_kings_board();
    board.set_piece_at(&(4, 4), PieceColor::White(Piece::Pawn(false)));
    board.set_piece_at(&(4, 3), PieceColor::Black(Piece::Pawn(false)));
    let game = Game::new(GameTurn::White, board, king_pos);
    assert_eq!(game.get_possible_moves((Rank::E, File::Four)), Some(vec![]));

    let (mut board, king_pos) = bare_kings_board();
    board.set_piece_at(&(0, 6), PieceColor::White(Piece::Pawn(true)));
    board.set_piece_at(&(0, 4), PieceColor::Black(Piece::Rook));
    let game = Game::new(GameTurn::White, board, king_pos);
    assert_eq!(
        game.get_possible_moves((Rank::A, File::Two)),
        Some(vec![(Rank::A, File::Three)])
    );
}

// Check detection looks for enemy pawns on the squares they capture from,
// not behind the king.
#[test]
fn pawn_check_direction() {
    let mut board = Board::new(None);
    board.set_piece_at(&(4, 4), PieceColor::White(Piece::King));
    board.set_piece_at(&(3, 3), PieceColor::Black(Piece::Pawn(false)));
    assert!(board.is_check(&GameTurn::White, &(4, 4)));

    let mut board = Board::new(None);
    board.set_piece_at(&(4, 4), PieceColor::White(Piece::King));
    board.set_piece_at(&(3, 5), PieceColor::Black(Piece::Pawn(false)));
    assert!(!board.is_check(&GameTurn::White, &(4, 4)));
}

// A knight gives check only from a knight's jump away.
#[test]
fn knight_check_distance() {
    let mut board = Board::new(None);
    board.set_piece_at(&(4, 7), PieceColor::White(Piece::King));
    board.set_piece_at(&(5, 5), PieceColor::Black(Piece::Knight));
    assert!(board.is_check(&GameTurn::White, &(4, 7)));

    let mut board = Board::new(None);
    board.set_piece_at(&(4, 7), PieceColor::White(Piece::King));
    board.set_piece_at(&(6, 3), PieceColor::Black(Piece::Knight));
    assert!(!board.is_check(&GameTurn::White, &(4, 7)));
}

// The promotion test looks at the piece on the landing square.
#[test]
fn check_promotion_gates_on_pawns() {
    let mut board = Board::new(None);
    board.set_piece_at(&(0, 0), PieceColor::White(Piece::Pawn(false)));
    assert_eq!(
        board.check_promotion(&(0, 0), &GameTurn::White),
        Some(GameState::Promotion((Rank::A, File::Eight)))
    );

    let mut board = Board::new(None);
    board.set_piece_at(&(0, 0), PieceColor::White(Piece::Rook));
    assert_eq!(
        board.check_promotion(&(0, 0), &GameTurn::White),
        Some(GameState::InProgress)
    );

    let mut board = Board::new(None);
    board.set_piece_at(&(3, 7), PieceColor::Black(Piece::Pawn(false)));
    assert_eq!(
        board.check_promotion(&(3, 7), &GameTurn::Black),
        Some(GameState::Promotion((Rank::D, File::One)))
    );
}

// Querying twice with no intervening mutation returns identical results.
#[test]
fn query_is_idempotent() {
    let game = Game::default();
    let first = game.get_possible_moves((Rank::B, File::One));
    let second = game.get_possible_moves((Rank::B, File::One));
    assert_eq!(first, second);
    assert_eq!(game.get_possible_moves((Rank::D, File::Four)), None);
}

// The per-direction walk yields one list per direction, in direction order.
#[test]
fn collect_lists_per_direction() {
    let mut board = Board::new(None);
    board.set_piece_at(&(4, 1), PieceColor::Black(Piece::Pawn(true)));
    let lists = Piece::Rook.collect_along_dirs_lists(
        &board,
        &GameTurn::White,
        &Piece::Rook.get_move_set(&GameTurn::White),
        &(4, 5),
        &osen_chess::piece::PieceLen::Infinity,
    );
    assert_eq!(lists.len(), 4);
    assert_eq!(lists[0], vec![(4, 6), (4, 7)]);
    assert_eq!(lists[1], vec![(5, 5), (6, 5), (7, 5)]);
    assert_eq!(lists[2], vec![(4, 4), (4, 3), (4, 2), (4, 1)]);
    assert_eq!(lists[3], vec![(3, 5), (2, 5), (1, 5), (0, 5)]);
}

// Ray-template probing reports the enemy pieces that first-block each ray.
#[test]
fn type_check_reports_blockers() {
    let mut board = Board::new(None);
    board.set_piece_at(&(4, 7), PieceColor::White(Piece::King));
    board.set_piece_at(&(4, 2), PieceColor::Black(Piece::Rook));
    board.set_piece_at(&(6, 7), PieceColor::White(Piece::Knight));
    let hits = board.is_type_check(
        Piece::Rook.get_move_set(&GameTurn::White),
        &GameTurn::White,
        &(4, 7),
    );
    assert_eq!(hits, vec![PieceColor::Black(Piece::Rook)]);

    let hits = board.is_type_check(
        Piece::Bishop.get_move_set(&GameTurn::White),
        &GameTurn::White,
        &(4, 7),
    );
    assert_eq!(hits, vec![]);
}

// The turn flips totally and nothing else changes with it.
#[test]
fn next_turn_flips() {
    let mut game = Game::default();
    assert_eq!(game.get_turn(), GameTurn::White);
    game.next_turn();
    assert_eq!(game.get_turn(), GameTurn::Black);
    game.next_turn();
    assert_eq!(game.get_turn(), GameTurn::White);
    assert_eq!(game.get_state(), GameState::InProgress);
}

// PieceColor keeps colour and kind together.
#[test]
fn piece_color_accessors() {
    let mut pc = PieceColor::White(Piece::Pawn(true));
    assert_eq!(pc.get_piece(), Ok(Piece::Pawn(true)));
    assert_eq!(pc.set_piece(Piece::Queen), Ok(()));
    assert_eq!(pc, PieceColor::White(Piece::Queen));

    let mut empty = PieceColor::Empty;
    assert_eq!(empty.get_piece(), Err(ChessError::MismatchedColor));
    assert_eq!(empty.set_piece(Piece::Queen), Err(ChessError::MismatchedColor));
}
