use osen_chess::board::Board;
use osen_chess::piece::add_along_dir;
use osen_chess::piece::Piece;
use osen_chess::piece::PieceColor;
use osen_chess::piece::PieceLen;
use osen_chess::Game;
use osen_chess::GameTurn;
use osen_chess::KingPos;

#[test]
fn add_along_dir_test_down() {
    let dir = add_along_dir(&(0, 1), &(0, 2), &PieceLen::Infinity);
    assert_eq!(dir, vec![(0, 3), (0, 4), (0, 5), (0, 6), (0, 7),])
}

#[test]
fn add_along_dir_test_up() {
    let dir = add_along_dir(&(0, -1), &(0, 3), &PieceLen::Infinity);
    assert_eq!(dir, vec![(0, 2), (0, 1), (0, 0)])
}

#[test]
fn add_along_dir_test_left() {
    let dir = add_along_dir(&(-1, 0), &(3, 0), &PieceLen::Infinity);
    assert_eq!(dir, vec![(2, 0), (1, 0), (0, 0)])
}

#[test]
fn add_along_dir_test_right() {
    let dir = add_along_dir(&(1, 0), &(3, 0), &PieceLen::Infinity);
    assert_eq!(dir, vec![(4, 0), (5, 0), (6, 0), (7, 0)])
}

#[test]
fn match_along_dir_test() {
    let mut board = Board::new(None);
    board.set_piece_at(&(6, 7), PieceColor::White(Piece::Knight));
    board.set_piece_at(&(5, 5), PieceColor::Black(Piece::Queen));
    let dir_pos = (5, 5);
    let piece = board.get_piece_at(&(6, 7));
    if let PieceColor::White(p) = piece {
        let res = p.match_along_dir(&board, &GameTurn::White, dir_pos);
        assert_eq!(res, Some(dir_pos))
    };
}

#[test]
fn collect_along_dirs_test_knight() {
    let game = Game::default();
    let board = Board::default();
    let pos = (6, 7);
    let piece = board.get_piece_at(&pos);
    if let PieceColor::White(piece) = piece {
        let moves = piece.collect_along_dirs(
            &board,
            &GameTurn::White,
            &piece.get_move_set(&game.get_turn()),
            &pos,
            &PieceLen::One,
        );
        assert_eq!(moves, vec![(5, 5), (7, 5)])
    }
}

#[test]
fn collect_along_dirs_test_pawn_first_move() {
    let game = Game::default();
    let board = Board::default();
    let pos = (6, 6);
    let piece = board.get_piece_at(&pos);
    if let PieceColor::White(piece) = piece {
        let moves = piece.collect_along_dirs(
            &board,
            &GameTurn::White,
            &piece.get_move_set(&game.get_turn()),
            &pos,
            &PieceLen::One,
        );
        assert_eq!(moves, vec![(5, 5), (7, 5), (6, 5), (6, 4)])
    }
}

#[test]
fn collect_along_dirs_test_pawn() {
    let game = Game::default();
    let mut board = Board::default();
    board.set_piece_at(&(6, 6), PieceColor::Empty);
    let pos = (6, 5);
    board.set_piece_at(&pos, PieceColor::White(Piece::Pawn(false)));
    let piece = board.get_piece_at(&pos);
    if let PieceColor::White(piece) = piece {
        let moves = piece.collect_along_dirs(
            &board,
            &GameTurn::White,
            &piece.get_move_set(&game.get_turn()),
            &pos,
            &PieceLen::One,
        );
        assert_eq!(moves, vec![(5, 4), (7, 4), (6, 4)])
    }
}

#[test]
fn rook_cap_test() {
    let mut board = Board::new(None);
    let king_pos = KingPos::default();
    board.set_piece_at(&king_pos.white, PieceColor::White(Piece::King));
    board.set_piece_at(&king_pos.black, PieceColor::Black(Piece::King));
    board.set_piece_at(&(4, 1), PieceColor::Black(Piece::Pawn(true)));
    board.set_piece_at(&(4, 5), PieceColor::White(Piece::Rook));
    let q = Piece::Rook.get_possible_moves(&board, &GameTurn::White, &(4, 5), &king_pos.white);

    assert_eq!(
        q,
        vec![
            (4, 6),
            (5, 5),
            (6, 5),
            (7, 5),
            (4, 4),
            (4, 3),
            (4, 2),
            (4, 1),
            (3, 5),
            (2, 5),
            (1, 5),
            (0, 5)
        ]
    )
}
