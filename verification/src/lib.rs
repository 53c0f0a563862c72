//! A chess rules engine: board storage, per-piece move generation with
//! blocking, capture and self-check filtering, check detection, and the
//! turn/promotion state machine that ties them together.
//!
//! Castling, en passant, repetition and notation are out of scope.

use vstd::prelude::*;

pub mod board;
pub mod piece;

use crate::board::is_check_spec;
use crate::board::is_promoting;
use crate::board::sq_at;
use crate::board::Board;
use crate::piece::board_after_move;
use crate::piece::is_friendly;
use crate::piece::legal_moves;
use crate::piece::name_pos;
use crate::piece::pos_name;
use crate::piece::pos_valid;
use crate::piece::sq_index;
use crate::piece::File;
use crate::piece::Piece;
use crate::piece::PieceColor;
use crate::piece::Rank;

verus! {

/// The phase of the turn state machine.
#[derive(Debug, Copy, Clone, PartialEq, Eq, Hash)]
pub enum GameState {
    /// Game in progress
    InProgress,
    /// Waiting for the promotion of the piece on the given square
    Promotion((Rank, File)),
    /// The side to move is in check
    Check,
    /// Game over
    GameOver,
}

/// The side to move.
#[derive(Debug, Copy, Clone, PartialEq, Eq, Structural, Hash)]
pub enum GameTurn {
    White,
    Black,
}

impl GameTurn {
    /// The opposite side.
    pub open spec fn spec_flip(&self) -> GameTurn {
        match self {
            GameTurn::White => GameTurn::Black,
            GameTurn::Black => GameTurn::White,
        }
    }

    /// The opposite side.
    #[verifier::when_used_as_spec(spec_flip)]
    pub fn flip(&self) -> (r: GameTurn)
        ensures
            r == self.spec_flip(),
    {
        match self {
            GameTurn::White => GameTurn::Black,
            GameTurn::Black => GameTurn::White,
        }
    }
}

/// Everything that can go wrong with a request to the engine.
#[derive(Debug, PartialEq, Eq, Clone, Copy, Structural, Hash)]
pub enum ChessError {
    /// Moved to an unreachable position
    InvalidMove,
    /// The selected piece does not belong to the side to move
    MismatchedColor,
    /// Position out of bounds on the board
    OutOfBounds,
    /// Selecting an empty square
    EmptySpace,
    /// Operation not valid in the current game state
    InvalidGameState,
    /// A move was attempted that does not resolve a check
    InCheck,
}

/// The cached coordinates of the two kings.
#[derive(Debug, Copy, Clone, PartialEq, Eq, Hash)]
pub struct KingPos {
    pub black: (u8, u8),
    pub white: (u8, u8),
}

impl Default for KingPos {
    /// The kings' squares in the standard starting position.
    fn default() -> (r: Self)
        ensures
            r == (KingPos { black: (4u8, 0u8), white: (4u8, 7u8) }),
    {
        Self { black: (4, 0), white: (4, 7) }
    }
}

/// The cached square of the king of side `turn`.
pub open spec fn king_of(kp: KingPos, turn: GameTurn) -> (u8, u8) {
    match turn {
        GameTurn::White => kp.white,
        GameTurn::Black => kp.black,
    }
}

/// The king cache with the entry of side `turn` moved to `to`.
pub open spec fn kp_update(kp: KingPos, turn: GameTurn, to: (u8, u8)) -> KingPos {
    match turn {
        GameTurn::White => KingPos { white: to, black: kp.black },
        GameTurn::Black => KingPos { white: kp.white, black: to },
    }
}

/// The kind of the piece on a non-empty square.
pub open spec fn piece_of(pc: PieceColor) -> Piece {
    match pc {
        PieceColor::White(p) => p,
        PieceColor::Black(p) => p,
        PieceColor::Empty => arbitrary(),
    }
}

/// The square value as it is set down again after moving: a pawn loses its
/// first-move flag the instant it completes any move, every other piece is
/// unchanged.
pub open spec fn moved_square(pc: PieceColor) -> PieceColor {
    match pc {
        PieceColor::White(Piece::Pawn(_)) => PieceColor::White(Piece::Pawn(false)),
        PieceColor::Black(Piece::Pawn(_)) => PieceColor::Black(Piece::Pawn(false)),
        _ => pc,
    }
}

/// The root aggregate: phase, side to move, board, and king cache. All
/// mutation goes through its methods.
#[derive(Debug)]
pub struct Game {
    state: GameState,
    turn: GameTurn,
    board: Board,
    king_pos: KingPos,
}

impl Game {
    /// The current phase.
    pub closed spec fn spec_state(self) -> GameState {
        self.state
    }

    /// The side to move.
    pub closed spec fn spec_turn(self) -> GameTurn {
        self.turn
    }

    /// The board contents.
    pub closed spec fn board_view(self) -> Seq<PieceColor> {
        self.board@
    }

    /// The king cache.
    pub closed spec fn spec_king_pos(self) -> KingPos {
        self.king_pos
    }

    /// Well-formedness: the board is total over the 64 squares and both
    /// cached king squares lie on the board.
    pub open spec fn wf(self) -> bool {
        &&& self.board_view().len() == 64
        &&& pos_valid(self.spec_king_pos().white)
        &&& pos_valid(self.spec_king_pos().black)
    }
}

/// Whether two game values agree in every observable component.
pub open spec fn game_unchanged(g1: Game, g2: Game) -> bool {
    &&& g1.spec_state() == g2.spec_state()
    &&& g1.spec_turn() == g2.spec_turn()
    &&& g1.board_view() == g2.board_view()
    &&& g1.spec_king_pos() == g2.spec_king_pos()
}

/// The legal landing squares of the piece standing at `pos`, computed for
/// the side to move and its cached king — also when the occupant belongs to
/// the other side; that quirk of the query surface is kept deliberately.
pub open spec fn query_moves(g: Game, pos: (u8, u8)) -> Seq<(u8, u8)> {
    legal_moves(
        g.board_view(),
        g.spec_turn(),
        piece_of(sq_at(g.board_view(), pos.0 as int, pos.1 as int)),
        pos,
        king_of(g.spec_king_pos(), g.spec_turn()),
    )
}

/// The error [`Game::make_move`] reports for a request, and `None` when the
/// request is accepted: moving is only possible while the game is in
/// progress or in check; the source square must hold a piece of the side to
/// move; and the destination must be among that piece's legal moves.
pub open spec fn move_error(g: Game, from: (u8, u8), to: (u8, u8)) -> Option<ChessError> {
    if !(g.spec_state() matches GameState::InProgress || g.spec_state() matches GameState::Check) {
        Some(ChessError::InvalidGameState)
    } else {
        let pc = sq_at(g.board_view(), from.0 as int, from.1 as int);
        if (pc matches PieceColor::Empty) {
            Some(ChessError::EmptySpace)
        } else if !is_friendly(pc, g.spec_turn()) {
            Some(ChessError::MismatchedColor)
        } else if !query_moves(g, from).contains(to) {
            Some(ChessError::InvalidMove)
        } else {
            None
        }
    }
}

/// How an accepted move transforms the game: the moving piece (with a
/// pawn's first-move flag cleared) leaves `from` and lands on `to`; a
/// moving king drags its cache entry along; a pawn reaching the far rank
/// parks the game in `Promotion(to)` without passing the turn; any other
/// move passes the turn and records whether the new side to move is in
/// check.
pub open spec fn move_applied(pre: Game, post: Game, from: (u8, u8), to: (u8, u8)) -> bool {
    let b = pre.board_view();
    let turn = pre.spec_turn();
    let pc = sq_at(b, from.0 as int, from.1 as int);
    let nb = board_after_move(b, from, to, moved_square(pc));
    let nkp = if (piece_of(pc) matches Piece::King) {
        kp_update(pre.spec_king_pos(), turn, to)
    } else {
        pre.spec_king_pos()
    };
    &&& post.board_view() == nb
    &&& post.spec_king_pos() == nkp
    &&& (if is_promoting(nb, to, turn) {
        post.spec_turn() == turn && post.spec_state() == GameState::Promotion(pos_name(to))
    } else {
        let nt = turn.spec_flip();
        let nk = king_of(nkp, nt);
        &&& post.spec_turn() == nt
        &&& post.spec_state() == (if is_check_spec(nb, nt, nk.0 as int, nk.1 as int) {
            GameState::Check
        } else {
            GameState::InProgress
        })
    })
}

/// The error [`Game::set_promotion`] reports, and `None` when the request
/// is accepted: promotion is only possible while the game waits in
/// `Promotion`, and the promotion square must still hold a piece.
pub open spec fn promo_error(g: Game, piece: Piece) -> Option<ChessError> {
    match g.spec_state() {
        GameState::Promotion(posn) => {
            let p8 = name_pos(posn);
            if (sq_at(g.board_view(), p8.0 as int, p8.1 as int) matches PieceColor::Empty) {
                Some(ChessError::MismatchedColor)
            } else {
                None
            }
        },
        _ => Some(ChessError::InvalidGameState),
    }
}

/// How an accepted promotion transforms the game: the piece on the
/// promotion square changes kind while keeping its colour, then the turn
/// passes exactly as after an ordinary move, recording whether the new side
/// to move is in check.
pub open spec fn promotion_applied(pre: Game, post: Game, piece: Piece) -> bool {
    match pre.spec_state() {
        GameState::Promotion(posn) => {
            let p8 = name_pos(posn);
            let pc = sq_at(pre.board_view(), p8.0 as int, p8.1 as int);
            let npc = match pc {
                PieceColor::White(_) => PieceColor::White(piece),
                PieceColor::Black(_) => PieceColor::Black(piece),
                PieceColor::Empty => pc,
            };
            let nb = pre.board_view().update(sq_index(p8.0 as int, p8.1 as int), npc);
            let nt = pre.spec_turn().spec_flip();
            let nk = king_of(pre.spec_king_pos(), nt);
            &&& post.board_view() == nb
            &&& post.spec_king_pos() == pre.spec_king_pos()
            &&& post.spec_turn() == nt
            &&& post.spec_state() == (if is_check_spec(nb, nt, nk.0 as int, nk.1 as int) {
                GameState::Check
            } else {
                GameState::InProgress
            })
        },
        _ => false,
    }
}

/// Exactly one king per colour stands on the board, each on its cached
/// square.
pub open spec fn kings_consistent(b: Seq<PieceColor>, kp: KingPos) -> bool {
    &&& pos_valid(kp.white)
    &&& pos_valid(kp.black)
    &&& sq_at(b, kp.white.0 as int, kp.white.1 as int) == PieceColor::White(Piece::King)
    &&& sq_at(b, kp.black.0 as int, kp.black.1 as int) == PieceColor::Black(Piece::King)
    &&& forall|x: int, y: int|
        crate::piece::on_board(x, y) && #[trigger] sq_at(b, x, y) == PieceColor::White(Piece::King)
            ==> x == kp.white.0 as int && y == kp.white.1 as int
    &&& forall|x: int, y: int|
        crate::piece::on_board(x, y) && #[trigger] sq_at(b, x, y) == PieceColor::Black(Piece::King)
            ==> x == kp.black.0 as int && y == kp.black.1 as int
}

/// Law: a fresh game has exactly one king per colour, cached correctly.
/// Only the properties [`Game::default`] promises are assumed.
pub proof fn lemma_default_kings_consistent(g: Game)
    requires
        g.spec_king_pos() == (KingPos { black: (4u8, 0u8), white: (4u8, 7u8) }),
        forall|x: int, y: int|
            crate::piece::on_board(x, y) ==> #[trigger] sq_at(g.board_view(), x, y)
                == crate::board::start_square(x, y),
    ensures
        kings_consistent(g.board_view(), g.spec_king_pos()),
{
    assert(sq_at(g.board_view(), 4, 7) == crate::board::start_square(4, 7));
    assert(sq_at(g.board_view(), 4, 0) == crate::board::start_square(4, 0));
}

/// Law: a move accepted by [`Game::make_move`] preserves "exactly one king
/// per colour, each on its cached square", as long as the destination does
/// not hold a king. (The engine's check model ignores king adjacency, so a
/// contrived sequence of play can leave a king capturable; such captures
/// are the one case this law leaves out.)
pub proof fn lemma_move_preserves_kings(pre: Game, post: Game, from: (u8, u8), to: (u8, u8))
    requires
        pre.wf(),
        pos_valid(from),
        pos_valid(to),
        kings_consistent(pre.board_view(), pre.spec_king_pos()),
        move_error(pre, from, to) is None,
        !(piece_of(sq_at(pre.board_view(), to.0 as int, to.1 as int)) matches Piece::King)
            || (sq_at(pre.board_view(), to.0 as int, to.1 as int) matches PieceColor::Empty),
        move_applied(pre, post, from, to),
    ensures
        kings_consistent(post.board_view(), post.spec_king_pos()),
{
    let b = pre.board_view();
    let kp = pre.spec_king_pos();
    let turn = pre.spec_turn();
    let pc = sq_at(b, from.0 as int, from.1 as int);
    let nb = post.board_view();
    let nkp = post.spec_king_pos();
    assert(sq_at(b, to.0 as int, to.1 as int) != PieceColor::White(Piece::King));
    assert(sq_at(b, to.0 as int, to.1 as int) != PieceColor::Black(Piece::King));
    assert(to.0 as int != kp.white.0 as int || to.1 as int != kp.white.1 as int);
    assert(to.0 as int != kp.black.0 as int || to.1 as int != kp.black.1 as int);
    if (piece_of(pc) matches Piece::King) {
        match turn {
            GameTurn::White => {
                assert(pc == PieceColor::White(Piece::King));
                assert(from.0 as int == kp.white.0 as int && from.1 as int == kp.white.1 as int);
                assert(from == kp.white);
                assert(nkp == (KingPos { white: to, black: kp.black }));
                assert(sq_at(nb, to.0 as int, to.1 as int) == PieceColor::White(Piece::King));
                assert(kp.black != from && kp.black != to);
                assert(sq_at(nb, kp.black.0 as int, kp.black.1 as int) == PieceColor::Black(
                    Piece::King,
                ));
                assert forall|x: int, y: int|
                    crate::piece::on_board(x, y) && #[trigger] sq_at(nb, x, y) == PieceColor::White(
                        Piece::King,
                    ) implies x == to.0 as int && y == to.1 as int by {
                    if (x, y) != (to.0 as int, to.1 as int) && (x, y) != (
                        from.0 as int,
                        from.1 as int,
                    ) {
                        assert(sq_at(nb, x, y) == sq_at(b, x, y));
                    }
                }
                assert forall|x: int, y: int|
                    crate::piece::on_board(x, y) && #[trigger] sq_at(nb, x, y) == PieceColor::Black(
                        Piece::King,
                    ) implies x == kp.black.0 as int && y == kp.black.1 as int by {
                    if (x, y) != (to.0 as int, to.1 as int) && (x, y) != (
                        from.0 as int,
                        from.1 as int,
                    ) {
                        assert(sq_at(nb, x, y) == sq_at(b, x, y));
                    }
                }
            },
            GameTurn::Black => {
                assert(pc == PieceColor::Black(Piece::King));
                assert(from.0 as int == kp.black.0 as int && from.1 as int == kp.black.1 as int);
                assert(from == kp.black);
                assert(nkp == (KingPos { white: kp.white, black: to }));
                assert(sq_at(nb, to.0 as int, to.1 as int) == PieceColor::Black(Piece::King));
                assert(kp.white != from && kp.white != to);
                assert(sq_at(nb, kp.white.0 as int, kp.white.1 as int) == PieceColor::White(
                    Piece::King,
                ));
                assert forall|x: int, y: int|
                    crate::piece::on_board(x, y) && #[trigger] sq_at(nb, x, y) == PieceColor::Black(
                        Piece::King,
                    ) implies x == to.0 as int && y == to.1 as int by {
                    if (x, y) != (to.0 as int, to.1 as int) && (x, y) != (
                        from.0 as int,
                        from.1 as int,
                    ) {
                        assert(sq_at(nb, x, y) == sq_at(b, x, y));
                    }
                }
                assert forall|x: int, y: int|
                    crate::piece::on_board(x, y) && #[trigger] sq_at(nb, x, y) == PieceColor::White(
                        Piece::King,
                    ) implies x == kp.white.0 as int && y == kp.white.1 as int by {
                    if (x, y) != (to.0 as int, to.1 as int) && (x, y) != (
                        from.0 as int,
                        from.1 as int,
                    ) {
                        assert(sq_at(nb, x, y) == sq_at(b, x, y));
                    }
                }
            },
        }
    } else {
        assert(nkp == kp);
        assert(from != kp.white && from != kp.black);
        assert(!(moved_square(pc) matches PieceColor::Empty));
        assert(piece_of(moved_square(pc)) == piece_of(pc) || (piece_of(moved_square(pc))
            matches Piece::Pawn(_)));
        assert(moved_square(pc) != PieceColor::White(Piece::King));
        assert(moved_square(pc) != PieceColor::Black(Piece::King));
        assert(sq_at(nb, kp.white.0 as int, kp.white.1 as int) == PieceColor::White(Piece::King));
        assert(sq_at(nb, kp.black.0 as int, kp.black.1 as int) == PieceColor::Black(Piece::King));
        assert forall|x: int, y: int|
            crate::piece::on_board(x, y) && #[trigger] sq_at(nb, x, y) == PieceColor::White(
                Piece::King,
            ) implies x == kp.white.0 as int && y == kp.white.1 as int by {
            if (x, y) != (to.0 as int, to.1 as int) && (x, y) != (from.0 as int, from.1 as int) {
                assert(sq_at(nb, x, y) == sq_at(b, x, y));
            }
        }
        assert forall|x: int, y: int|
            crate::piece::on_board(x, y) && #[trigger] sq_at(nb, x, y) == PieceColor::Black(
                Piece::King,
            ) implies x == kp.black.0 as int && y == kp.black.1 as int by {
            if (x, y) != (to.0 as int, to.1 as int) && (x, y) != (from.0 as int, from.1 as int) {
                assert(sq_at(nb, x, y) == sq_at(b, x, y));
            }
        }
    }
}

/// Law: a promotion accepted by [`Game::set_promotion`] preserves "exactly
/// one king per colour, each on its cached square", as long as the chosen
/// kind is not `King` and the promotion square does not hold a king.
pub proof fn lemma_promotion_preserves_kings(pre: Game, post: Game, piece: Piece)
    requires
        pre.wf(),
        kings_consistent(pre.board_view(), pre.spec_king_pos()),
        promo_error(pre, piece) is None,
        promotion_applied(pre, post, piece),
        !(piece matches Piece::King),
        (match pre.spec_state() {
            GameState::Promotion(posn) => !(piece_of(
                sq_at(
                    pre.board_view(),
                    name_pos(posn).0 as int,
                    name_pos(posn).1 as int,
                ),
            ) matches Piece::King),
            _ => true,
        }),
    ensures
        kings_consistent(post.board_view(), post.spec_king_pos()),
{
    let b = pre.board_view();
    let kp = pre.spec_king_pos();
    let nb = post.board_view();
    match pre.spec_state() {
        GameState::Promotion(posn) => {
            let p8 = name_pos(posn);
            assert(pos_valid(p8));
            assert(p8 != kp.white && p8 != kp.black);
            assert(sq_at(nb, kp.white.0 as int, kp.white.1 as int) == PieceColor::White(
                Piece::King,
            ));
            assert(sq_at(nb, kp.black.0 as int, kp.black.1 as int) == PieceColor::Black(
                Piece::King,
            ));
            assert forall|x: int, y: int|
                crate::piece::on_board(x, y) && #[trigger] sq_at(nb, x, y) == PieceColor::White(
                    Piece::King,
                ) implies x == kp.white.0 as int && y == kp.white.1 as int by {
                if (x, y) != (p8.0 as int, p8.1 as int) {
                    assert(sq_at(nb, x, y) == sq_at(b, x, y));
                }
            }
            assert forall|x: int, y: int|
                crate::piece::on_board(x, y) && #[trigger] sq_at(nb, x, y) == PieceColor::Black(
                    Piece::King,
                ) implies x == kp.black.0 as int && y == kp.black.1 as int by {
                if (x, y) != (p8.0 as int, p8.1 as int) {
                    assert(sq_at(nb, x, y) == sq_at(b, x, y));
                }
            }
        },
        _ => {},
    }
}

/// Law: the move query is deterministic — any two results that satisfy
/// [`Game::get_possible_moves`]'s contract for the same game and square
/// are identical, so querying twice with no intervening mutation returns
/// identical move lists.
pub proof fn lemma_query_idempotent(
    g: Game,
    position: (Rank, File),
    v1: Seq<(Rank, File)>,
    v2: Seq<(Rank, File)>,
)
    requires
        v1.len() == query_moves(g, name_pos(position)).len(),
        forall|i: int|
            0 <= i < v1.len() ==> v1[i] == pos_name(
                #[trigger] query_moves(g, name_pos(position))[i],
            ),
        v2.len() == query_moves(g, name_pos(position)).len(),
        forall|i: int|
            0 <= i < v2.len() ==> v2[i] == pos_name(
                #[trigger] query_moves(g, name_pos(position))[i],
            ),
    ensures
        v1 == v2,
{
    assert forall|i: int| 0 <= i < v1.len() implies v1[i] == v2[i] by {
        assert(v1[i] == pos_name(query_moves(g, name_pos(position))[i]));
        assert(v2[i] == pos_name(query_moves(g, name_pos(position))[i]));
    }
    assert(v1 =~= v2);
}

/// Whether the vector of squares holds `p`.
fn contains_pos(v: &Vec<(u8, u8)>, p: (u8, u8)) -> (r: bool)
    ensures
        r == v@.contains(p),
{
    let mut i: usize = 0;
    while i < v.len()
        invariant
            i <= v@.len(),
            forall|j: int| 0 <= j < i ==> v@[j] != p,
        decreases v@.len() - i,
    {
        let q = v[i];
        if q.0 == p.0 && q.1 == p.1 {
            assert(v@[i as int] == p);
            return true;
        }
        i = i + 1;
    }
    false
}

impl Default for Game {
    /// A fresh game: standard starting position, White to move, in
    /// progress, kings cached on their starting squares.
    fn default() -> (r: Self)
        ensures
            r.wf(),
            r.spec_state() == GameState::InProgress,
            r.spec_turn() == GameTurn::White,
            r.spec_king_pos() == (KingPos { black: (4u8, 0u8), white: (4u8, 7u8) }),
            forall|x: int, y: int|
                crate::piece::on_board(x, y) ==> sq_at(r.board_view(), x, y)
                    == crate::board::start_square(x, y),
    {
        Game {
            state: GameState::InProgress,
            turn: GameTurn::White,
            board: Board::default(),
            king_pos: KingPos::default(),
        }
    }
}

impl Game {
    /// A game assembled from parts, in progress. The caller vouches for the
    /// board being total and the king squares lying on the board.
    pub fn new(turn: GameTurn, board: Board, king_pos: KingPos) -> (r: Game)
        requires
            board.wf(),
            pos_valid(king_pos.white),
            pos_valid(king_pos.black),
        ensures
            r.wf(),
            r.spec_state() == GameState::InProgress,
            r.spec_turn() == turn,
            r.board_view() == board@,
            r.spec_king_pos() == king_pos,
    {
        Game { state: GameState::InProgress, turn, board, king_pos }
    }

    /// The occupancy of the named square.
    pub fn get_piece_at(&self, pos: &(Rank, File)) -> (r: PieceColor)
        requires
            self.wf(),
        ensures
            r == sq_at(self.board_view(), name_pos(*pos).0 as int, name_pos(*pos).1 as int),
    {
        let p8 = (pos.0.index(), pos.1.index());
        self.board.get_piece_at(&p8)
    }

    /// The side to move.
    pub fn get_turn(&self) -> (r: GameTurn)
        ensures
            r == self.spec_turn(),
    {
        self.turn
    }

    /// The current phase.
    pub fn get_state(&self) -> (r: GameState)
        ensures
            r == self.spec_state(),
    {
        self.state
    }

    /// The squares of the board as one row-major slice.
    pub fn get_board(&self) -> (r: &[PieceColor])
        ensures
            r@ == self.board_view(),
    {
        self.board.squares()
    }

    /// The cached square of the king of side `turn`.
    pub fn get_king_pos(&self, turn: &GameTurn) -> (r: (u8, u8))
        ensures
            r == king_of(self.spec_king_pos(), *turn),
    {
        match turn {
            GameTurn::White => self.king_pos.white,
            GameTurn::Black => self.king_pos.black,
        }
    }

    /// Answer a move request. A request is rejected — with the exact error
    /// [`move_error`] names and the game left untouched — unless the game
    /// is in progress or in check, the source square holds a piece of the
    /// side to move, and the destination is among that piece's legal,
    /// self-check-filtered landing squares. An accepted move transforms the
    /// game exactly as [`move_applied`] describes.
    pub fn make_move(&mut self, from: (Rank, File), to: (Rank, File)) -> (r: Result<(), ChessError>)
        requires
            old(self).wf(),
        ensures
            final(self).wf(),
            (match move_error(*old(self), name_pos(from), name_pos(to)) {
                Some(e) => r == Err::<(), ChessError>(e) && game_unchanged(*old(self), *final(self)),
                None => r == Ok::<(), ChessError>(()) && move_applied(
                    *old(self),
                    *final(self),
                    name_pos(from),
                    name_pos(to),
                ),
            }),
            r is Err ==> game_unchanged(*old(self), *final(self)),
    {
        let from8 = (from.0.index(), from.1.index());
        let to8 = (to.0.index(), to.1.index());
        match self.state {
            GameState::InProgress | GameState::Check => {},
            _ => {
                return Err(ChessError::InvalidGameState);
            },
        }
        let piece_color = self.board.get_piece_at(&from8);
        let piece = match self.turn {
            GameTurn::White => match piece_color {
                PieceColor::White(p) => p,
                PieceColor::Black(_) => {
                    return Err(ChessError::MismatchedColor);
                },
                PieceColor::Empty => {
                    return Err(ChessError::EmptySpace);
                },
            },
            GameTurn::Black => match piece_color {
                PieceColor::Black(p) => p,
                PieceColor::White(_) => {
                    return Err(ChessError::MismatchedColor);
                },
                PieceColor::Empty => {
                    return Err(ChessError::EmptySpace);
                },
            },
        };
        let kp = self.get_king_pos(&self.turn);
        let moves = piece.get_possible_moves(&self.board, &self.turn, &from8, &kp);

        if !contains_pos(&moves, to8) {
            return Err(ChessError::InvalidMove);
        }
        let moved = match piece_color {
            PieceColor::White(Piece::Pawn(_)) => PieceColor::White(Piece::Pawn(false)),
            PieceColor::Black(Piece::Pawn(_)) => PieceColor::Black(Piece::Pawn(false)),
            other => other,
        };
        self.board.set_piece_at(&from8, PieceColor::Empty);
        self.board.set_piece_at(&to8, moved);
        if matches!(piece, Piece::King) {
            match self.turn {
                GameTurn::White => {
                    self.king_pos.white = to8;
                },
                GameTurn::Black => {
                    self.king_pos.black = to8;
                },
            }
        }
        let state = self.board.check_promotion(&to8, &self.turn);
        if let Some(GameState::Promotion(pos)) = state {
            self.state = GameState::Promotion(pos);
            return Ok(());
        }
        self.next_turn();
        let kp2 = self.get_king_pos(&self.turn);
        if self.board.is_check(&self.turn, &kp2) {
            self.state = GameState::Check;
            return Ok(());
        }
        self.state = GameState::InProgress;
        Ok(())
    }

    /// Resolve a pending promotion by choosing the kind the promoted piece
    /// becomes. Valid only while the game waits in `Promotion`; the piece
    /// keeps its colour, then the turn passes and the check test runs, as
    /// [`promotion_applied`] describes. A rejected request leaves the game
    /// untouched and reports the error [`promo_error`] names.
    pub fn set_promotion(&mut self, piece: Piece) -> (r: Result<(), ChessError>)
        requires
            old(self).wf(),
        ensures
            final(self).wf(),
            (match promo_error(*old(self), piece) {
                Some(e) => r == Err::<(), ChessError>(e) && game_unchanged(*old(self), *final(self)),
                None => r == Ok::<(), ChessError>(()) && promotion_applied(
                    *old(self),
                    *final(self),
                    piece,
                ),
            }),
            r is Err ==> game_unchanged(*old(self), *final(self)),
    {
        let pos = match self.state {
            GameState::Promotion(pos) => pos,
            _ => {
                return Err(ChessError::InvalidGameState);
            },
        };
        let p8 = (pos.0.index(), pos.1.index());
        let mut piece_color = self.board.get_piece_at(&p8);
        match piece_color.set_piece(piece) {
            Ok(_) => {},
            Err(e) => {
                return Err(e);
            },
        }
        self.board.set_piece_at(&p8, piece_color);
        self.next_turn();
        let kp = self.get_king_pos(&self.turn);
        if self.board.is_check(&self.turn, &kp) {
            self.state = GameState::Check;
            return Ok(());
        }
        self.state = GameState::InProgress;
        Ok(())
    }

    /// The legal landing squares of whatever piece stands on the named
    /// square, or `None` for an empty square. The list is computed for the
    /// current side to move and its king — also when the occupant belongs
    /// to the other side; that quirk of the query surface is deliberate.
    pub fn get_possible_moves(&self, position: (Rank, File)) -> (r: Option<Vec<(Rank, File)>>)
        requires
            self.wf(),
        ensures
            (match r {
                None => sq_at(
                    self.board_view(),
                    name_pos(position).0 as int,
                    name_pos(position).1 as int,
                ) matches PieceColor::Empty,
                Some(v) => {
                    &&& !(sq_at(
                        self.board_view(),
                        name_pos(position).0 as int,
                        name_pos(position).1 as int,
                    ) matches PieceColor::Empty)
                    &&& v@.len() == query_moves(*self, name_pos(position)).len()
                    &&& forall|i: int|
                        0 <= i < v@.len() ==> v@[i] == pos_name(
                            #[trigger] query_moves(*self, name_pos(position))[i],
                        )
                },
            }),
    {
        let p8 = (position.0.index(), position.1.index());
        let pc = self.board.get_piece_at(&p8);
        let piece = match pc {
            PieceColor::White(p) => p,
            PieceColor::Black(p) => p,
            PieceColor::Empty => {
                return None;
            },
        };
        let kp = self.get_king_pos(&self.turn);
        let moves = piece.get_possible_moves(&self.board, &self.turn, &p8, &kp);
        proof {
            crate::piece::lemma_legal_moves_valid(self.board_view(), self.turn, piece, p8, kp);
        }
        let mut out: Vec<(Rank, File)> = Vec::new();
        let mut i: usize = 0;
        while i < moves.len()
            invariant
                moves@ == query_moves(*self, p8),
                forall|j: int| 0 <= j < moves@.len() ==> pos_valid(#[trigger] moves@[j]),
                i <= moves@.len(),
                out@.len() == i,
                forall|j: int| 0 <= j < i ==> out@[j] == pos_name(#[trigger] moves@[j]),
            decreases moves@.len() - i,
        {
            let m = moves[i];
            let rk = match Rank::from_index(m.0) {
                Ok(rk) => rk,
                Err(_) => {
                    proof {
                        assert(false);
                    }
                    Rank::A
                },
            };
            let f = match File::from_index(m.1) {
                Ok(f) => f,
                Err(_) => {
                    proof {
                        assert(false);
                    }
                    File::One
                },
            };
            out.push((rk, f));
            i = i + 1;
        }
        Some(out)
    }

    /// Pass the turn to the other side, leaving everything else untouched.
    pub fn next_turn(&mut self)
        ensures
            final(self).spec_turn() == old(self).spec_turn().spec_flip(),
            final(self).spec_state() == old(self).spec_state(),
            final(self).board_view() == old(self).board_view(),
            final(self).spec_king_pos() == old(self).spec_king_pos(),
            old(self).wf() ==> final(self).wf(),
    {
        self.turn = self.turn.flip();
    }
}

} // verus!
