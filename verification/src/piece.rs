//! The coordinate and piece model: board coordinates, the piece and colour
//! vocabulary, and the raw movement geometry shared by move generation and
//! check detection.

use vstd::prelude::*;

use crate::board::sq_at;
use crate::board::Board;
use crate::ChessError;
use crate::GameTurn;

verus! {

/// A square index pair `(x, y)` lies on the board.
pub open spec fn on_board(x: int, y: int) -> bool {
    0 <= x < 8 && 0 <= y < 8
}

/// A coordinate pair of `u8` values is a valid board position.
pub open spec fn pos_valid(p: (u8, u8)) -> bool {
    p.0 < 8 && p.1 < 8
}

/// The index of coordinate `(x, y)` in the row-major board array.
pub open spec fn sq_index(x: int, y: int) -> int {
    y * 8 + x
}

/// The occupancy of one square: a coloured piece, or nothing.
#[derive(Debug, Copy, Clone, PartialEq, Eq, Structural, Hash)]
pub enum PieceColor {
    White(Piece),
    Black(Piece),
    Empty,
}

impl PieceColor {
    /// Replace the piece kind while keeping the colour; fails on an empty square.
    pub fn set_piece(&mut self, piece: Piece) -> (r: Result<(), ChessError>)
        ensures
            match *old(self) {
                PieceColor::White(_) => r == Ok::<(), ChessError>(())
                    && *final(self) == PieceColor::White(piece),
                PieceColor::Black(_) => r == Ok::<(), ChessError>(())
                    && *final(self) == PieceColor::Black(piece),
                PieceColor::Empty => r == Err::<(), ChessError>(ChessError::MismatchedColor)
                    && *final(self) == *old(self),
            },
    {
        match self {
            PieceColor::White(p) => *p = piece,
            PieceColor::Black(p) => *p = piece,
            PieceColor::Empty => {
                return Err(ChessError::MismatchedColor);
            },
        };
        Ok(())
    }

    /// The piece kind on the square; fails on an empty square.
    pub fn get_piece(&self) -> (r: Result<Piece, ChessError>)
        ensures
            match *self {
                PieceColor::White(p) => r == Ok::<Piece, ChessError>(p),
                PieceColor::Black(p) => r == Ok::<Piece, ChessError>(p),
                PieceColor::Empty => r == Err::<Piece, ChessError>(ChessError::MismatchedColor),
            },
    {
        match self {
            PieceColor::White(p) => Ok(*p),
            PieceColor::Black(p) => Ok(*p),
            PieceColor::Empty => Err(ChessError::MismatchedColor),
        }
    }
}

/// Whether a square holds a piece of the given side.
pub open spec fn is_friendly(pc: PieceColor, turn: GameTurn) -> bool {
    match pc {
        PieceColor::White(_) => turn == GameTurn::White,
        PieceColor::Black(_) => turn == GameTurn::Black,
        PieceColor::Empty => false,
    }
}

/// Whether a square holds a piece of the side opposite to the given one.
pub open spec fn is_enemy(pc: PieceColor, turn: GameTurn) -> bool {
    match pc {
        PieceColor::White(_) => turn == GameTurn::Black,
        PieceColor::Black(_) => turn == GameTurn::White,
        PieceColor::Empty => false,
    }
}

/// The piece `piece` coloured for the side `turn`.
pub open spec fn colored(turn: GameTurn, piece: Piece) -> PieceColor {
    match turn {
        GameTurn::White => PieceColor::White(piece),
        GameTurn::Black => PieceColor::Black(piece),
    }
}

/// The y position on the board, seen from White's side: `One` is White's
/// back rank (row index 7), `Eight` is Black's (row index 0).
#[derive(Debug, PartialEq, Clone, Copy, Eq, Structural, Hash)]
pub enum File {
    One,
    Two,
    Three,
    Four,
    Five,
    Six,
    Seven,
    Eight,
}

/// The row index a `File` stands for.
pub open spec fn file_y(f: File) -> int {
    match f {
        File::One => 7,
        File::Two => 6,
        File::Three => 5,
        File::Four => 4,
        File::Five => 3,
        File::Six => 2,
        File::Seven => 1,
        File::Eight => 0,
    }
}

/// The `File` standing for row index `y`.
pub open spec fn y_file(y: int) -> File {
    if y == 7 {
        File::One
    } else if y == 6 {
        File::Two
    } else if y == 5 {
        File::Three
    } else if y == 4 {
        File::Four
    } else if y == 3 {
        File::Five
    } else if y == 2 {
        File::Six
    } else if y == 1 {
        File::Seven
    } else {
        File::Eight
    }
}

impl File {
    /// The row index this `File` stands for.
    pub fn index(&self) -> (r: u8)
        ensures
            r == file_y(*self),
    {
        match self {
            File::One => 7,
            File::Two => 6,
            File::Three => 5,
            File::Four => 4,
            File::Five => 3,
            File::Six => 2,
            File::Seven => 1,
            File::Eight => 0,
        }
    }

    /// The `File` standing for row index `value`; out-of-range indices are
    /// rejected rather than wrapped.
    pub fn from_index(value: u8) -> (r: Result<File, ChessError>)
        ensures
            value < 8 ==> r == Ok::<File, ChessError>(y_file(value as int)),
            value >= 8 ==> r == Err::<File, ChessError>(ChessError::OutOfBounds),
    {
        match value {
            7 => Ok(File::One),
            6 => Ok(File::Two),
            5 => Ok(File::Three),
            4 => Ok(File::Four),
            3 => Ok(File::Five),
            2 => Ok(File::Six),
            1 => Ok(File::Seven),
            0 => Ok(File::Eight),
            _ => Err(ChessError::OutOfBounds),
        }
    }
}

/// The x position on the board: `A` is column index 0, `H` is 7.
#[derive(Debug, PartialEq, Clone, Copy, Eq, Structural, Hash)]
pub enum Rank {
    A,
    B,
    C,
    D,
    E,
    F,
    G,
    H,
}

/// The column index a `Rank` stands for.
pub open spec fn rank_x(r: Rank) -> int {
    match r {
        Rank::A => 0,
        Rank::B => 1,
        Rank::C => 2,
        Rank::D => 3,
        Rank::E => 4,
        Rank::F => 5,
        Rank::G => 6,
        Rank::H => 7,
    }
}

/// The `Rank` standing for column index `x`.
pub open spec fn x_rank(x: int) -> Rank {
    if x == 0 {
        Rank::A
    } else if x == 1 {
        Rank::B
    } else if x == 2 {
        Rank::C
    } else if x == 3 {
        Rank::D
    } else if x == 4 {
        Rank::E
    } else if x == 5 {
        Rank::F
    } else if x == 6 {
        Rank::G
    } else {
        Rank::H
    }
}

impl Rank {
    /// The column index this `Rank` stands for.
    pub fn index(&self) -> (r: u8)
        ensures
            r == rank_x(*self),
    {
        match self {
            Rank::A => 0,
            Rank::B => 1,
            Rank::C => 2,
            Rank::D => 3,
            Rank::E => 4,
            Rank::F => 5,
            Rank::G => 6,
            Rank::H => 7,
        }
    }

    /// The `Rank` standing for column index `value`; out-of-range indices are
    /// rejected rather than wrapped.
    pub fn from_index(value: u8) -> (r: Result<Rank, ChessError>)
        ensures
            value < 8 ==> r == Ok::<Rank, ChessError>(x_rank(value as int)),
            value >= 8 ==> r == Err::<Rank, ChessError>(ChessError::OutOfBounds),
    {
        match value {
            0 => Ok(Rank::A),
            1 => Ok(Rank::B),
            2 => Ok(Rank::C),
            3 => Ok(Rank::D),
            4 => Ok(Rank::E),
            5 => Ok(Rank::F),
            6 => Ok(Rank::G),
            7 => Ok(Rank::H),
            _ => Err(ChessError::OutOfBounds),
        }
    }
}

/// The symbolic pair naming the board position `(x, y)`.
pub open spec fn pos_name(p: (u8, u8)) -> (Rank, File) {
    (x_rank(p.0 as int), y_file(p.1 as int))
}

/// The board position a symbolic `(Rank, File)` pair names.
pub open spec fn name_pos(n: (Rank, File)) -> (u8, u8) {
    (rank_x(n.0) as u8, file_y(n.1) as u8)
}

/// Whether a pawn still has its first move available.
pub type IsFirstMove = bool;

/// A piece kind. The pawn carries whether it has never moved, which controls
/// the two-square advance.
#[derive(Debug, Copy, Clone, PartialEq, Eq, Structural, Hash)]
pub enum Piece {
    Pawn(IsFirstMove),
    Rook,
    Knight,
    Bishop,
    Queen,
    King,
}

/// How far a piece may travel along each of its directions: a single step,
/// or sliding until blocked.
#[derive(Debug, Copy, Clone, PartialEq, Eq, Structural, Hash)]
pub enum PieceLen {
    One,
    Infinity,
}

/// The number of steps a `PieceLen` allows; 8 steps reach the board edge
/// from any square.
pub open spec fn len_steps(len: PieceLen) -> int {
    match len {
        PieceLen::One => 1,
        PieceLen::Infinity => 8,
    }
}

/// The direction vectors along which a piece of the given kind moves,
/// oriented so that White pawns advance toward row 0 and Black pawns toward
/// row 7. A pawn that has not moved also carries its two-square advance.
pub open spec fn move_set_spec(p: Piece, turn: GameTurn) -> Seq<(i8, i8)> {
    match p {
        Piece::Pawn(first) => {
            let caps = capture_set_spec(turn);
            let fwd = forward_dir(turn);
            if first {
                caps + seq![fwd, (0i8, (2 * fwd.1) as i8)]
            } else {
                caps + seq![fwd]
            }
        },
        Piece::Rook => seq![(0i8, 1i8), (1i8, 0i8), (0i8, -1i8), (-1i8, 0i8)],
        Piece::Knight => seq![
            (-1i8, -2i8),
            (1i8, -2i8),
            (2i8, -1i8),
            (2i8, 1i8),
            (1i8, 2i8),
            (-1i8, 2i8),
            (-2i8, 1i8),
            (-2i8, -1i8),
        ],
        Piece::Bishop => seq![(1i8, 1i8), (-1i8, -1i8), (1i8, -1i8), (-1i8, 1i8)],
        Piece::King | Piece::Queen => seq![
            (0i8, 1i8),
            (1i8, 1i8),
            (1i8, 0i8),
            (1i8, -1i8),
            (0i8, -1i8),
            (-1i8, -1i8),
            (-1i8, 0i8),
            (-1i8, 1i8),
        ],
    }
}

/// The single forward step of a pawn of the given side.
pub open spec fn forward_dir(turn: GameTurn) -> (i8, i8) {
    match turn {
        GameTurn::White => (0i8, -1i8),
        GameTurn::Black => (0i8, 1i8),
    }
}

/// The two diagonal capture steps of a pawn of the given side.
pub open spec fn capture_set_spec(turn: GameTurn) -> Seq<(i8, i8)> {
    match turn {
        GameTurn::White => seq![(-1i8, -1i8), (1i8, -1i8)],
        GameTurn::Black => seq![(-1i8, 1i8), (1i8, 1i8)],
    }
}

/// How far a piece of the given kind travels along each direction.
pub open spec fn reach_of(p: Piece) -> PieceLen {
    match p {
        Piece::Pawn(_) | Piece::Knight | Piece::King => PieceLen::One,
        Piece::Bishop | Piece::Rook | Piece::Queen => PieceLen::Infinity,
    }
}

impl Piece {
    /// The diagonal capture steps; defined for pawns only.
    pub fn get_capture_set(&self, turn: &GameTurn) -> (r: Vec<(i8, i8)>)
        requires
            self matches Piece::Pawn(_),
        ensures
            r@ == capture_set_spec(*turn),
    {
        let mut r: Vec<(i8, i8)> = Vec::new();
        match turn {
            GameTurn::White => {
                r.push((-1, -1));
                r.push((1, -1));
            },
            GameTurn::Black => {
                r.push((-1, 1));
                r.push((1, 1));
            },
        }
        proof {
            assert(r@ =~= capture_set_spec(*turn));
        }
        r
    }

    /// The movement direction vectors of this piece for the given side.
    pub fn get_move_set(&self, turn: &GameTurn) -> (r: Vec<(i8, i8)>)
        ensures
            r@ == move_set_spec(*self, *turn),
    {
        let mut r: Vec<(i8, i8)> = Vec::new();
        match self {
            Piece::Pawn(first_move) => {
                match turn {
                    GameTurn::White => {
                        r.push((-1, -1));
                        r.push((1, -1));
                        r.push((0, -1));
                        if *first_move {
                            r.push((0, -2));
                        }
                    },
                    GameTurn::Black => {
                        r.push((-1, 1));
                        r.push((1, 1));
                        r.push((0, 1));
                        if *first_move {
                            r.push((0, 2));
                        }
                    },
                }
            },
            Piece::Rook => {
                r.push((0, 1));
                r.push((1, 0));
                r.push((0, -1));
                r.push((-1, 0));
            },
            Piece::Knight => {
                r.push((-1, -2));
                r.push((1, -2));
                r.push((2, -1));
                r.push((2, 1));
                r.push((1, 2));
                r.push((-1, 2));
                r.push((-2, 1));
                r.push((-2, -1));
            },
            Piece::Bishop => {
                r.push((1, 1));
                r.push((-1, -1));
                r.push((1, -1));
                r.push((-1, 1));
            },
            Piece::King | Piece::Queen => {
                r.push((0, 1));
                r.push((1, 1));
                r.push((1, 0));
                r.push((1, -1));
                r.push((0, -1));
                r.push((-1, -1));
                r.push((-1, 0));
                r.push((-1, 1));
            },
        }
        proof {
            assert(r@ =~= move_set_spec(*self, *turn));
        }
        r
    }
}

/// The coordinate reached from `pos` after `i` steps along `dir`, as an
/// unbounded index pair.
pub open spec fn dir_step(pos: (u8, u8), dir: (i8, i8), i: int) -> (int, int) {
    (pos.0 as int + i * dir.0 as int, pos.1 as int + i * dir.1 as int)
}

/// The squares reached by stepping from `pos` along `dir` one to `len` times,
/// in walking order, cut off at the first step that leaves the board.
pub fn add_along_dir(dir: &(i8, i8), pos: &(u8, u8), len: &PieceLen) -> (r: Vec<(u8, u8)>)
    requires
        pos_valid(*pos),
    ensures
        r@.len() <= len_steps(*len),
        forall|j: int|
            0 <= j < r@.len() ==> {
                &&& on_board(#[trigger] dir_step(*pos, *dir, j + 1).0, dir_step(*pos, *dir, j + 1).1)
                &&& r@[j].0 == dir_step(*pos, *dir, j + 1).0
                &&& r@[j].1 == dir_step(*pos, *dir, j + 1).1
            },
        r@.len() < len_steps(*len) ==> !on_board(
            dir_step(*pos, *dir, r@.len() as int + 1).0,
            dir_step(*pos, *dir, r@.len() as int + 1).1,
        ),
{
    let steps: u8 = match len {
        PieceLen::One => 1,
        PieceLen::Infinity => 8,
    };
    let mut r: Vec<(u8, u8)> = Vec::new();
    let mut cx: i32 = pos.0 as i32;
    let mut cy: i32 = pos.1 as i32;
    let mut i: u8 = 0;
    while i < steps
        invariant
            i <= steps,
            steps == len_steps(*len),
            pos_valid(*pos),
            0 <= cx < 8,
            0 <= cy < 8,
            cx == dir_step(*pos, *dir, i as int).0,
            cy == dir_step(*pos, *dir, i as int).1,
            r@.len() == i,
            forall|j: int|
                0 <= j < i ==> {
                    &&& on_board(
                        #[trigger] dir_step(*pos, *dir, j + 1).0,
                        dir_step(*pos, *dir, j + 1).1,
                    )
                    &&& r@[j].0 == dir_step(*pos, *dir, j + 1).0
                    &&& r@[j].1 == dir_step(*pos, *dir, j + 1).1
                },
        decreases steps - i,
    {
        let nx = cx + dir.0 as i32;
        let ny = cy + dir.1 as i32;
        proof {
            assert((i + 1) * dir.0 as int == i * dir.0 as int + dir.0 as int) by (nonlinear_arith);
            assert((i + 1) * dir.1 as int == i * dir.1 as int + dir.1 as int) by (nonlinear_arith);
            assert(nx == dir_step(*pos, *dir, i + 1).0);
            assert(ny == dir_step(*pos, *dir, i + 1).1);
        }
        if nx < 0 || nx >= 8 || ny < 0 || ny >= 8 {
            return r;
        }
        let ghost old_r = r@;
        r.push((nx as u8, ny as u8));
        proof {
            assert forall|j: int| 0 <= j < i + 1 implies {
                &&& on_board(#[trigger] dir_step(*pos, *dir, j + 1).0, dir_step(*pos, *dir, j + 1).1)
                &&& r@[j].0 == dir_step(*pos, *dir, j + 1).0
                &&& r@[j].1 == dir_step(*pos, *dir, j + 1).1
            } by {
                if j < i {
                    assert(r@[j] == old_r[j]);
                } else {
                    assert(r@[j] == (nx as u8, ny as u8));
                }
            }
        }
        cx = nx;
        cy = ny;
        i = i + 1;
    }
    r
}

/// Whether `pc` is a square the walking side may land on: empty squares and
/// enemy pieces, but never a friendly piece.
pub open spec fn landable(pc: PieceColor, turn: GameTurn) -> bool {
    !is_friendly(pc, turn)
}

/// The squares a sliding walk from `pos` along `dir` may land on, in walking
/// order: every empty square up to the first blocker, plus the blocker itself
/// when it is an enemy piece (a capture). A friendly blocker and the board
/// edge end the walk without being included. `fuel` bounds the number of
/// steps taken.
pub open spec fn ray(b: Seq<PieceColor>, turn: GameTurn, pos: (u8, u8), dir: (i8, i8), fuel: nat) -> Seq<(u8, u8)>
    decreases fuel,
{
    if fuel == 0 {
        Seq::empty()
    } else {
        let x = pos.0 as int + dir.0 as int;
        let y = pos.1 as int + dir.1 as int;
        if !on_board(x, y) {
            Seq::empty()
        } else {
            let q = (x as u8, y as u8);
            let pc = sq_at(b, x, y);
            if is_friendly(pc, turn) {
                Seq::empty()
            } else if is_enemy(pc, turn) {
                seq![q]
            } else {
                seq![q] + ray(b, turn, q, dir, (fuel - 1) as nat)
            }
        }
    }
}

/// The rays of all the given directions, walked from `pos` one after the
/// other and concatenated in direction order.
pub open spec fn rays_concat(
    b: Seq<PieceColor>,
    turn: GameTurn,
    pos: (u8, u8),
    dirs: Seq<(i8, i8)>,
    fuel: nat,
) -> Seq<(u8, u8)>
    decreases dirs.len(),
{
    if dirs.len() == 0 {
        Seq::empty()
    } else {
        rays_concat(b, turn, pos, dirs.drop_last(), fuel) + ray(b, turn, pos, dirs.last(), fuel)
    }
}

/// Whether the square `pc` holds a piece of the side `turn`.
pub(crate) fn square_friendly(pc: &PieceColor, turn: &GameTurn) -> (r: bool)
    ensures
        r == is_friendly(*pc, *turn),
{
    match pc {
        PieceColor::White(_) => matches!(turn, GameTurn::White),
        PieceColor::Black(_) => matches!(turn, GameTurn::Black),
        PieceColor::Empty => false,
    }
}

/// Whether the square `pc` holds a piece of the side opposite to `turn`.
pub(crate) fn square_enemy(pc: &PieceColor, turn: &GameTurn) -> (r: bool)
    ensures
        r == is_enemy(*pc, *turn),
{
    match pc {
        PieceColor::White(_) => matches!(turn, GameTurn::Black),
        PieceColor::Black(_) => matches!(turn, GameTurn::White),
        PieceColor::Empty => false,
    }
}

/// Walk one direction from `pos` and collect the landable squares, exactly
/// as [`ray`] describes.
fn walk_ray(board: &Board, turn: &GameTurn, pos: &(u8, u8), dir: (i8, i8), steps: u8) -> (r: Vec<
    (u8, u8),
>)
    requires
        board.wf(),
        pos_valid(*pos),
    ensures
        r@ == ray(board@, *turn, *pos, dir, steps as nat),
{
    let mut r: Vec<(u8, u8)> = Vec::new();
    let mut cx: u8 = pos.0;
    let mut cy: u8 = pos.1;
    let mut fuel: u8 = steps;
    while fuel > 0
        invariant
            board.wf(),
            cx < 8,
            cy < 8,
            ray(board@, *turn, *pos, dir, steps as nat) == r@ + ray(
                board@,
                *turn,
                (cx, cy),
                dir,
                fuel as nat,
            ),
        decreases fuel,
    {
        let nx = cx as i32 + dir.0 as i32;
        let ny = cy as i32 + dir.1 as i32;
        if nx < 0 || nx >= 8 || ny < 0 || ny >= 8 {
            proof {
                assert(ray(board@, *turn, (cx, cy), dir, fuel as nat) =~= Seq::<(u8, u8)>::empty());
                assert(r@ + Seq::<(u8, u8)>::empty() =~= r@);
            }
            return r;
        }
        let q = (nx as u8, ny as u8);
        let pc = board.get_piece_at(&q);
        if square_friendly(&pc, turn) {
            proof {
                assert(ray(board@, *turn, (cx, cy), dir, fuel as nat) =~= Seq::<(u8, u8)>::empty());
                assert(r@ + Seq::<(u8, u8)>::empty() =~= r@);
            }
            return r;
        }
        let ghost old_r = r@;
        r.push(q);
        if square_enemy(&pc, turn) {
            proof {
                assert(ray(board@, *turn, (cx, cy), dir, fuel as nat) =~= seq![q]);
                assert(old_r + seq![q] =~= r@);
            }
            return r;
        }
        proof {
            assert(ray(board@, *turn, (cx, cy), dir, fuel as nat) == seq![q] + ray(
                board@,
                *turn,
                q,
                dir,
                (fuel - 1) as nat,
            ));
            assert(old_r + (seq![q] + ray(board@, *turn, q, dir, (fuel - 1) as nat)) =~= r@ + ray(
                board@,
                *turn,
                q,
                dir,
                (fuel - 1) as nat,
            ));
        }
        cx = q.0;
        cy = q.1;
        fuel = fuel - 1;
    }
    proof {
        assert(ray(board@, *turn, (cx, cy), dir, 0) =~= Seq::<(u8, u8)>::empty());
        assert(r@ + Seq::<(u8, u8)>::empty() =~= r@);
    }
    r
}

impl Piece {
    /// Whether the walking side may land on the already-reached square
    /// `dir_pos`: an empty or enemy square is a landing square, a friendly
    /// one is not.
    pub fn match_along_dir(&self, board: &Board, turn: &GameTurn, dir_pos: (u8, u8)) -> (r: Option<
        (u8, u8),
    >)
        requires
            board.wf(),
            pos_valid(dir_pos),
        ensures
            r == (if landable(sq_at(board@, dir_pos.0 as int, dir_pos.1 as int), *turn) {
                Some(dir_pos)
            } else {
                Option::<(u8, u8)>::None
            }),
    {
        let pc = board.get_piece_at(&dir_pos);
        if square_friendly(&pc, turn) {
            None
        } else {
            Some(dir_pos)
        }
    }

    /// The rays of each given direction, one list per direction, each as
    /// [`ray`] describes.
    pub fn collect_along_dirs_lists(
        &self,
        board: &Board,
        turn: &GameTurn,
        move_dirs: &Vec<(i8, i8)>,
        pos: &(u8, u8),
        len: &PieceLen,
    ) -> (r: Vec<Vec<(u8, u8)>>)
        requires
            board.wf(),
            pos_valid(*pos),
        ensures
            r@.len() == move_dirs@.len(),
            forall|i: int|
                0 <= i < r@.len() ==> #[trigger] r@[i]@ == ray(
                    board@,
                    *turn,
                    *pos,
                    move_dirs@[i],
                    len_steps(*len) as nat,
                ),
    {
        let steps: u8 = match len {
            PieceLen::One => 1,
            PieceLen::Infinity => 8,
        };
        let mut r: Vec<Vec<(u8, u8)>> = Vec::new();
        let mut i: usize = 0;
        while i < move_dirs.len()
            invariant
                board.wf(),
                pos_valid(*pos),
                steps == len_steps(*len),
                i <= move_dirs@.len(),
                r@.len() == i,
                forall|j: int|
                    0 <= j < i ==> #[trigger] r@[j]@ == ray(
                        board@,
                        *turn,
                        *pos,
                        move_dirs@[j],
                        len_steps(*len) as nat,
                    ),
            decreases move_dirs@.len() - i,
        {
            let seg = walk_ray(board, turn, pos, move_dirs[i], steps);
            r.push(seg);
            i = i + 1;
        }
        r
    }

    /// The rays of all given directions concatenated in direction order,
    /// exactly as [`rays_concat`] describes.
    pub fn collect_along_dirs(
        &self,
        board: &Board,
        turn: &GameTurn,
        move_dirs: &Vec<(i8, i8)>,
        pos: &(u8, u8),
        len: &PieceLen,
    ) -> (r: Vec<(u8, u8)>)
        requires
            board.wf(),
            pos_valid(*pos),
        ensures
            r@ == rays_concat(board@, *turn, *pos, move_dirs@, len_steps(*len) as nat),
    {
        let steps: u8 = match len {
            PieceLen::One => 1,
            PieceLen::Infinity => 8,
        };
        let mut r: Vec<(u8, u8)> = Vec::new();
        let mut i: usize = 0;
        while i < move_dirs.len()
            invariant
                board.wf(),
                pos_valid(*pos),
                steps == len_steps(*len),
                i <= move_dirs@.len(),
                r@ == rays_concat(board@, *turn, *pos, move_dirs@.take(i as int), steps as nat),
            decreases move_dirs@.len() - i,
        {
            let mut seg = walk_ray(board, turn, pos, move_dirs[i], steps);
            let ghost old_r = r@;
            r.append(&mut seg);
            proof {
                let pre = move_dirs@.take(i as int);
                let cur = move_dirs@.take(i as int + 1);
                assert(cur.drop_last() =~= pre);
                assert(cur.last() == move_dirs@[i as int]);
                assert(r@ == rays_concat(board@, *turn, *pos, cur, steps as nat));
            }
            i = i + 1;
        }
        proof {
            assert(move_dirs@.take(move_dirs@.len() as int) =~= move_dirs@);
        }
        r
    }
}

/// The board as it stands after lifting the piece off `from` and setting
/// `pc` down on `to`.
pub open spec fn board_after_move(b: Seq<PieceColor>, from: (u8, u8), to: (u8, u8), pc: PieceColor) -> Seq<PieceColor> {
    b.update(sq_index(from.0 as int, from.1 as int), PieceColor::Empty).update(
        sq_index(to.0 as int, to.1 as int),
        pc,
    )
}

/// Where the mover's king stands while a candidate move is simulated: on
/// the landing square when the king itself is the mover, and on its cached
/// square otherwise.
pub open spec fn sim_king(piece: Piece, to: (u8, u8), king_pos: (u8, u8)) -> (u8, u8) {
    if (piece matches Piece::King) {
        to
    } else {
        king_pos
    }
}

/// Whether moving `piece` of side `turn` from `from` to `to` leaves that
/// side's own king attacked.
pub open spec fn move_exposes_check(
    b: Seq<PieceColor>,
    turn: GameTurn,
    piece: Piece,
    from: (u8, u8),
    to: (u8, u8),
    king_pos: (u8, u8),
) -> bool {
    let nb = board_after_move(b, from, to, colored(turn, piece));
    let k = sim_king(piece, to, king_pos);
    crate::board::is_check_spec(nb, turn, k.0 as int, k.1 as int)
}

/// The candidate landing squares of `cands` that do not leave the mover's
/// own king attacked, in their original order.
pub open spec fn self_check_filter(
    b: Seq<PieceColor>,
    turn: GameTurn,
    piece: Piece,
    from: (u8, u8),
    king_pos: (u8, u8),
    cands: Seq<(u8, u8)>,
) -> Seq<(u8, u8)>
    decreases cands.len(),
{
    if cands.len() == 0 {
        Seq::empty()
    } else {
        self_check_filter(b, turn, piece, from, king_pos, cands.drop_last()) + (if move_exposes_check(
            b,
            turn,
            piece,
            from,
            cands.last(),
            king_pos,
        ) {
            Seq::<(u8, u8)>::empty()
        } else {
            seq![cands.last()]
        })
    }
}

/// A single optional landing square as a sequence.
pub open spec fn opt_square(o: Option<(u8, u8)>) -> Seq<(u8, u8)> {
    match o {
        Some(q) => seq![q],
        None => Seq::empty(),
    }
}

/// The diagonal capture squares of a pawn of side `turn` at `pos`, left
/// diagonal first: only squares holding an enemy piece qualify.
pub open spec fn pawn_cap_squares(b: Seq<PieceColor>, turn: GameTurn, pos: (u8, u8)) -> Seq<(u8, u8)> {
    let caps = capture_set_spec(turn);
    opt_square(pawn_cap_square(b, turn, pos, caps[0])) + opt_square(
        pawn_cap_square(b, turn, pos, caps[1]),
    )
}

/// The straight advances of a pawn at `pos`: one square forward onto an
/// empty square, and — for a pawn that has never moved — two squares
/// forward when both squares ahead are empty. Pawns never capture straight
/// ahead.
pub open spec fn pawn_forward_squares(b: Seq<PieceColor>, turn: GameTurn, first: bool, pos: (u8, u8)) -> Seq<(u8, u8)> {
    let f = forward_dir(turn);
    let x = pos.0 as int;
    let y1 = pos.1 as int + f.1 as int;
    let y2 = pos.1 as int + 2 * (f.1 as int);
    if !(on_board(x, y1) && sq_at(b, x, y1) == PieceColor::Empty) {
        Seq::empty()
    } else {
        let one = seq![(pos.0, y1 as u8)];
        if first && on_board(x, y2) && sq_at(b, x, y2) == PieceColor::Empty {
            one + seq![(pos.0, y2 as u8)]
        } else {
            one
        }
    }
}

/// The landing squares `piece` of side `turn` standing at `pos` may reach
/// by geometry alone, before self-check filtering: the pawn's captures then
/// advances, or the concatenated rays of every other piece.
pub open spec fn pseudo_moves(b: Seq<PieceColor>, turn: GameTurn, piece: Piece, pos: (u8, u8)) -> Seq<(u8, u8)> {
    match piece {
        Piece::Pawn(first) => pawn_cap_squares(b, turn, pos) + pawn_forward_squares(
            b,
            turn,
            first,
            pos,
        ),
        _ => rays_concat(b, turn, pos, move_set_spec(piece, turn), len_steps(reach_of(piece)) as nat),
    }
}

/// The landing squares `piece` of side `turn` standing at `pos` may legally
/// move to this turn: its geometric moves with every square that would
/// leave its own king attacked removed.
pub open spec fn legal_moves(
    b: Seq<PieceColor>,
    turn: GameTurn,
    piece: Piece,
    pos: (u8, u8),
    king_pos: (u8, u8),
) -> Seq<(u8, u8)> {
    self_check_filter(b, turn, piece, pos, king_pos, pseudo_moves(b, turn, piece, pos))
}

/// Every square of a ray lies on the board.
pub proof fn lemma_ray_valid(b: Seq<PieceColor>, turn: GameTurn, pos: (u8, u8), dir: (i8, i8), fuel: nat)
    ensures
        forall|j: int| 0 <= j < ray(b, turn, pos, dir, fuel).len() ==> pos_valid(
            #[trigger] ray(b, turn, pos, dir, fuel)[j],
        ),
    decreases fuel,
{
    if fuel > 0 {
        let x = pos.0 as int + dir.0 as int;
        let y = pos.1 as int + dir.1 as int;
        if on_board(x, y) {
            let q = ((x as u8), (y as u8));
            lemma_ray_valid(b, turn, q, dir, (fuel - 1) as nat);
            let whole = ray(b, turn, pos, dir, fuel);
            let tail = ray(b, turn, q, dir, (fuel - 1) as nat);
            assert forall|j: int| 0 <= j < whole.len() implies pos_valid(whole[j]) by {
                if j == 0 {
                    assert(whole[0] == q);
                } else {
                    assert(whole[j] == tail[j - 1]);
                }
            }
        }
    }
}

/// Every square of every concatenated ray lies on the board.
pub proof fn lemma_rays_concat_valid(
    b: Seq<PieceColor>,
    turn: GameTurn,
    pos: (u8, u8),
    dirs: Seq<(i8, i8)>,
    fuel: nat,
)
    ensures
        forall|j: int| 0 <= j < rays_concat(b, turn, pos, dirs, fuel).len() ==> pos_valid(
            #[trigger] rays_concat(b, turn, pos, dirs, fuel)[j],
        ),
    decreases dirs.len(),
{
    if dirs.len() > 0 {
        lemma_rays_concat_valid(b, turn, pos, dirs.drop_last(), fuel);
        lemma_ray_valid(b, turn, pos, dirs.last(), fuel);
        let whole = rays_concat(b, turn, pos, dirs, fuel);
        let front = rays_concat(b, turn, pos, dirs.drop_last(), fuel);
        let back = ray(b, turn, pos, dirs.last(), fuel);
        assert forall|j: int| 0 <= j < whole.len() implies pos_valid(whole[j]) by {
            if j < front.len() {
                assert(whole[j] == front[j]);
            } else {
                assert(whole[j] == back[j - front.len()]);
            }
        }
    }
}

/// Every geometric landing square lies on the board.
pub proof fn lemma_pseudo_moves_valid(b: Seq<PieceColor>, turn: GameTurn, piece: Piece, pos: (u8, u8))
    requires
        pos_valid(pos),
    ensures
        forall|j: int| 0 <= j < pseudo_moves(b, turn, piece, pos).len() ==> pos_valid(
            #[trigger] pseudo_moves(b, turn, piece, pos)[j],
        ),
{
    match piece {
        Piece::Pawn(_) => {},
        _ => {
            lemma_rays_concat_valid(
                b,
                turn,
                pos,
                move_set_spec(piece, turn),
                len_steps(reach_of(piece)) as nat,
            );
        },
    }
}

/// Law: a sliding walk visits exactly the consecutive steps along its
/// direction, never lands on a friendly piece, passes only over empty
/// squares before its last stop, and ends only at the board edge, at its
/// step budget, just after capturing an enemy piece, or just before a
/// friendly one. A rook on an otherwise empty board therefore collects
/// every square of its rank and file up to the edge, including a first
/// enemy blocker and excluding a friendly one.
pub proof fn lemma_ray_characterization(
    b: Seq<PieceColor>,
    turn: GameTurn,
    pos: (u8, u8),
    dir: (i8, i8),
    fuel: nat,
)
    ensures
        ray(b, turn, pos, dir, fuel).len() <= fuel,
        forall|j: int|
            0 <= j < ray(b, turn, pos, dir, fuel).len() ==> {
                &&& (#[trigger] ray(b, turn, pos, dir, fuel)[j]).0 == dir_step(pos, dir, j + 1).0
                &&& ray(b, turn, pos, dir, fuel)[j].1 == dir_step(pos, dir, j + 1).1
            },
        forall|j: int|
            0 <= j < ray(b, turn, pos, dir, fuel).len() ==> !is_friendly(
                sq_at(
                    b,
                    (#[trigger] ray(b, turn, pos, dir, fuel)[j]).0 as int,
                    ray(b, turn, pos, dir, fuel)[j].1 as int,
                ),
                turn,
            ),
        forall|j: int|
            0 <= j < ray(b, turn, pos, dir, fuel).len() - 1 ==> sq_at(
                b,
                (#[trigger] ray(b, turn, pos, dir, fuel)[j]).0 as int,
                ray(b, turn, pos, dir, fuel)[j].1 as int,
            ) == PieceColor::Empty,
        ray(b, turn, pos, dir, fuel).len() < fuel ==> {
            let r = ray(b, turn, pos, dir, fuel);
            let nxt = dir_step(pos, dir, r.len() as int + 1);
            ||| !on_board(nxt.0, nxt.1)
            ||| (r.len() > 0 && is_enemy(sq_at(b, r.last().0 as int, r.last().1 as int), turn))
            ||| (on_board(nxt.0, nxt.1) && is_friendly(sq_at(b, nxt.0, nxt.1), turn))
        },
    decreases fuel,
{
    if fuel > 0 {
        let x = pos.0 as int + dir.0 as int;
        let y = pos.1 as int + dir.1 as int;
        assert(x == dir_step(pos, dir, 1).0);
        assert(y == dir_step(pos, dir, 1).1);
        if on_board(x, y) {
            let q = ((x as u8), (y as u8));
            let pc = sq_at(b, x, y);
            if !is_friendly(pc, turn) && !is_enemy(pc, turn) {
                lemma_ray_characterization(b, turn, q, dir, (fuel - 1) as nat);
                let whole = ray(b, turn, pos, dir, fuel);
                let tail = ray(b, turn, q, dir, (fuel - 1) as nat);
                assert(whole == seq![q] + tail);
                assert forall|j: int| 0 <= j < whole.len() implies {
                    &&& (#[trigger] whole[j]).0 == dir_step(pos, dir, j + 1).0
                    &&& whole[j].1 == dir_step(pos, dir, j + 1).1
                } by {
                    if j == 0 {
                        assert(whole[0] == q);
                    } else {
                        assert(whole[j] == tail[j - 1]);
                        assert(tail[j - 1].0 == dir_step(q, dir, j).0);
                        assert(tail[j - 1].1 == dir_step(q, dir, j).1);
                        assert(q.0 as int + j * dir.0 as int == pos.0 as int + (j + 1) * dir.0 as int)
                            by (nonlinear_arith)
                            requires q.0 as int == pos.0 as int + dir.0 as int;
                        assert(q.1 as int + j * dir.1 as int == pos.1 as int + (j + 1) * dir.1 as int)
                            by (nonlinear_arith)
                            requires q.1 as int == pos.1 as int + dir.1 as int;
                    }
                }
                assert forall|j: int| 0 <= j < whole.len() implies !is_friendly(
                    sq_at(b, (#[trigger] whole[j]).0 as int, whole[j].1 as int),
                    turn,
                ) by {
                    if j == 0 {
                        assert(whole[0] == q);
                    } else {
                        assert(whole[j] == tail[j - 1]);
                    }
                }
                assert forall|j: int| 0 <= j < whole.len() - 1 implies sq_at(
                    b,
                    (#[trigger] whole[j]).0 as int,
                    whole[j].1 as int,
                ) == PieceColor::Empty by {
                    if j == 0 {
                        assert(whole[0] == q);
                    } else {
                        assert(whole[j] == tail[j - 1]);
                    }
                }
                if whole.len() < fuel {
                    assert(tail.len() < fuel - 1);
                    let nxt = dir_step(q, dir, tail.len() as int + 1);
                    assert(nxt.0 == dir_step(pos, dir, whole.len() as int + 1).0) by (nonlinear_arith)
                        requires
                            q.0 as int == pos.0 as int + dir.0 as int,
                            nxt.0 == q.0 as int + (tail.len() + 1) * dir.0 as int,
                            whole.len() == tail.len() + 1,
                    ;
                    assert(nxt.1 == dir_step(pos, dir, whole.len() as int + 1).1) by (nonlinear_arith)
                        requires
                            q.1 as int == pos.1 as int + dir.1 as int,
                            nxt.1 == q.1 as int + (tail.len() + 1) * dir.1 as int,
                            whole.len() == tail.len() + 1,
                    ;
                    if tail.len() > 0 {
                        assert(whole.last() == tail.last());
                    }
                }
            }
        }
    }
}

/// Every square the self-check filter keeps was among the candidates.
pub proof fn lemma_filter_from_cands(
    b: Seq<PieceColor>,
    turn: GameTurn,
    piece: Piece,
    from: (u8, u8),
    king_pos: (u8, u8),
    cands: Seq<(u8, u8)>,
)
    ensures
        forall|j: int|
            0 <= j < self_check_filter(b, turn, piece, from, king_pos, cands).len()
                ==> cands.contains(#[trigger] self_check_filter(b, turn, piece, from, king_pos, cands)[j]),
    decreases cands.len(),
{
    if cands.len() > 0 {
        lemma_filter_from_cands(b, turn, piece, from, king_pos, cands.drop_last());
        let whole = self_check_filter(b, turn, piece, from, king_pos, cands);
        let front = self_check_filter(b, turn, piece, from, king_pos, cands.drop_last());
        assert forall|j: int| 0 <= j < whole.len() implies cands.contains(whole[j]) by {
            if j < front.len() {
                assert(whole[j] == front[j]);
                let w = choose|i: int| 0 <= i < cands.drop_last().len() && cands.drop_last()[i]
                    == front[j];
                assert(cands[w] == front[j]);
            } else {
                assert(whole[j] == cands.last());
                assert(cands[cands.len() - 1] == cands.last());
            }
        }
    }
}

/// Every legal landing square lies on the board.
pub proof fn lemma_legal_moves_valid(
    b: Seq<PieceColor>,
    turn: GameTurn,
    piece: Piece,
    pos: (u8, u8),
    king_pos: (u8, u8),
)
    requires
        pos_valid(pos),
    ensures
        forall|j: int| 0 <= j < legal_moves(b, turn, piece, pos, king_pos).len() ==> pos_valid(
            #[trigger] legal_moves(b, turn, piece, pos, king_pos)[j],
        ),
{
    lemma_pseudo_moves_valid(b, turn, piece, pos);
    lemma_filter_from_cands(b, turn, piece, pos, king_pos, pseudo_moves(b, turn, piece, pos));
    let lm = legal_moves(b, turn, piece, pos, king_pos);
    let pm = pseudo_moves(b, turn, piece, pos);
    assert forall|j: int| 0 <= j < lm.len() implies pos_valid(lm[j]) by {
        assert(pm.contains(lm[j]));
        let w = choose|i: int| 0 <= i < pm.len() && pm[i] == lm[j];
        assert(pos_valid(pm[w]));
    }
}

/// The square a pawn standing at `pos` may capture on along the diagonal
/// `dir`: the single step along `dir` when it lies on the board and holds an
/// enemy piece, and nothing otherwise.
pub open spec fn pawn_cap_square(b: Seq<PieceColor>, turn: GameTurn, pos: (u8, u8), dir: (i8, i8)) -> Option<(u8, u8)> {
    let x = pos.0 as int + dir.0 as int;
    let y = pos.1 as int + dir.1 as int;
    if on_board(x, y) && is_enemy(sq_at(b, x, y), turn) {
        Some(((x as u8), (y as u8)))
    } else {
        None
    }
}

/// Probe one diagonal capture step of a pawn, exactly as
/// [`pawn_cap_square`] describes. The reach argument is accepted for
/// uniformity with the other walkers; a capture is always a single step.
pub fn check_pawn_cap_move(
    pos: &(u8, u8),
    len: &PieceLen,
    dir: &(i8, i8),
    board: &Board,
    turn: &GameTurn,
) -> (r: Option<(u8, u8)>)
    requires
        board.wf(),
        pos_valid(*pos),
    ensures
        r == pawn_cap_square(board@, *turn, *pos, *dir),
{
    let nx = pos.0 as i32 + dir.0 as i32;
    let ny = pos.1 as i32 + dir.1 as i32;
    if nx < 0 || nx >= 8 || ny < 0 || ny >= 8 {
        return None;
    }
    let q = (nx as u8, ny as u8);
    let pc = board.get_piece_at(&q);
    if square_enemy(&pc, turn) {
        Some(q)
    } else {
        None
    }
}

/// The piece `piece` coloured for the side `turn`, as a square value.
fn make_colored(turn: &GameTurn, piece: Piece) -> (r: PieceColor)
    ensures
        r == colored(*turn, piece),
{
    match turn {
        GameTurn::White => PieceColor::White(piece),
        GameTurn::Black => PieceColor::Black(piece),
    }
}

impl Piece {
    /// The geometric landing squares of this piece before self-check
    /// filtering, exactly as [`pseudo_moves`] describes.
    fn pseudo_move_list(self, board: &Board, turn: &GameTurn, pos: &(u8, u8)) -> (r: Vec<(u8, u8)>)
        requires
            board.wf(),
            pos_valid(*pos),
        ensures
            r@ == pseudo_moves(board@, *turn, self, *pos),
    {
        match self {
            Piece::Pawn(first) => {
                let mut cands: Vec<(u8, u8)> = Vec::new();
                let caps = self.get_capture_set(turn);
                if let Some(p) = check_pawn_cap_move(pos, &PieceLen::One, &caps[0], board, turn) {
                    cands.push(p);
                }
                if let Some(p) = check_pawn_cap_move(pos, &PieceLen::One, &caps[1], board, turn) {
                    cands.push(p);
                }
                proof {
                    assert(cands@ =~= pawn_cap_squares(board@, *turn, *pos));
                }
                let ghost cap_part = cands@;
                let fy: i32 = match turn {
                    GameTurn::White => -1,
                    GameTurn::Black => 1,
                };
                let ny1 = pos.1 as i32 + fy;
                if 0 <= ny1 && ny1 < 8 {
                    let q1 = (pos.0, ny1 as u8);
                    if matches!(board.get_piece_at(&q1), PieceColor::Empty) {
                        cands.push(q1);
                        if first {
                            let ny2 = pos.1 as i32 + 2 * fy;
                            if 0 <= ny2 && ny2 < 8 {
                                let q2 = (pos.0, ny2 as u8);
                                if matches!(board.get_piece_at(&q2), PieceColor::Empty) {
                                    cands.push(q2);
                                }
                            }
                        }
                    }
                }
                proof {
                    assert(cands@ =~= cap_part + pawn_forward_squares(board@, *turn, first, *pos));
                }
                cands
            },
            _ => {
                let dirs = self.get_move_set(turn);
                let reach = match self {
                    Piece::Pawn(_) | Piece::Knight | Piece::King => PieceLen::One,
                    Piece::Bishop | Piece::Rook | Piece::Queen => PieceLen::Infinity,
                };
                self.collect_along_dirs(board, turn, &dirs, pos, &reach)
            },
        }
    }

    /// The landing squares this piece of side `turn`, standing at `pos` with
    /// its own king at `king_pos`, may legally move to: its geometric moves
    /// with blocking and capture respected, minus every square that would
    /// leave its own king attacked — exactly [`legal_moves`]. Each candidate
    /// is vetted by replaying the move on a scratch copy of the board and
    /// asking whether the king's square is then attacked.
    pub fn get_possible_moves(
        self,
        board: &Board,
        turn: &GameTurn,
        pos: &(u8, u8),
        king_pos: &(u8, u8),
    ) -> (r: Vec<(u8, u8)>)
        requires
            board.wf(),
            pos_valid(*pos),
            pos_valid(*king_pos),
        ensures
            r@ == legal_moves(board@, *turn, self, *pos, *king_pos),
    {
        let cands = self.pseudo_move_list(board, turn, pos);
        proof {
            lemma_pseudo_moves_valid(board@, *turn, self, *pos);
        }
        let mut r: Vec<(u8, u8)> = Vec::new();
        let mut i: usize = 0;
        while i < cands.len()
            invariant
                board.wf(),
                pos_valid(*pos),
                pos_valid(*king_pos),
                i <= cands@.len(),
                cands@ == pseudo_moves(board@, *turn, self, *pos),
                forall|j: int| 0 <= j < cands@.len() ==> pos_valid(#[trigger] cands@[j]),
                r@ == self_check_filter(
                    board@,
                    *turn,
                    self,
                    *pos,
                    *king_pos,
                    cands@.take(i as int),
                ),
            decreases cands@.len() - i,
        {
            let to = cands[i];
            let mut test_board = board.clone();
            test_board.set_piece_at(pos, PieceColor::Empty);
            test_board.set_piece_at(&to, make_colored(turn, self));
            let sim_k = if matches!(self, Piece::King) {
                to
            } else {
                *king_pos
            };
            let exposed = test_board.is_check(turn, &sim_k);
            let ghost old_r = r@;
            if !exposed {
                r.push(to);
            }
            proof {
                let pre = cands@.take(i as int);
                let cur = cands@.take(i as int + 1);
                assert(cur.drop_last() =~= pre);
                assert(cur.last() == cands@[i as int]);
                assert(test_board@ == board_after_move(board@, *pos, to, colored(*turn, self)));
                if exposed {
                    assert(old_r + Seq::<(u8, u8)>::empty() =~= old_r);
                } else {
                    assert(r@ =~= old_r + seq![to]);
                }
                assert(r@ == self_check_filter(board@, *turn, self, *pos, *king_pos, cur));
            }
            i = i + 1;
        }
        proof {
            assert(cands@.take(cands@.len() as int) =~= cands@);
        }
        r
    }
}

} // verus!
