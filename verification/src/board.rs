//! The board: an 8×8 grid of occupancy values, with the check-detection
//! query built on the same walk-until-blocked primitive as move generation.

use vstd::prelude::*;

use crate::piece::capture_set_spec;
use crate::piece::is_enemy;
use crate::piece::move_set_spec;
use crate::piece::on_board;
use crate::piece::pos_name;
use crate::piece::pos_valid;
use crate::piece::sq_index;
use crate::piece::square_enemy;
use crate::piece::File;
use crate::piece::Piece;
use crate::piece::PieceColor;
use crate::piece::Rank;
use crate::GameState;
use crate::GameTurn;

verus! {

/// The occupancy value at coordinate `(x, y)` of a 64-square board sequence.
pub open spec fn sq_at(b: Seq<PieceColor>, x: int, y: int) -> PieceColor {
    b[sq_index(x, y)]
}

/// An 8×8 grid of squares, stored row-major: index `y * 8 + x`.
#[derive(Debug, PartialEq, Eq, Hash)]
pub struct Board {
    data: Vec<PieceColor>,
}

impl View for Board {
    type V = Seq<PieceColor>;

    closed spec fn view(&self) -> Seq<PieceColor> {
        self.data@
    }
}

impl Clone for Board {
    /// An independent copy with the same occupancy everywhere.
    fn clone(&self) -> (r: Board)
        ensures
            r@ == self@,
    {
        let mut data: Vec<PieceColor> = Vec::new();
        let mut i: usize = 0;
        while i < self.data.len()
            invariant
                i <= self.data.len(),
                data@ == self.data@.take(i as int),
            decreases self.data.len() - i,
        {
            data.push(self.data[i]);
            i = i + 1;
            proof {
                assert(data@ =~= self.data@.take(i as int));
            }
        }
        proof {
            assert(data@ =~= self.data@);
        }
        Board { data }
    }
}

/// The square standing at `(x, y)` in the standard starting position.
pub open spec fn start_square(x: int, y: int) -> PieceColor {
    if y == 0 {
        PieceColor::Black(back_rank_piece(x))
    } else if y == 1 {
        PieceColor::Black(Piece::Pawn(true))
    } else if y == 6 {
        PieceColor::White(Piece::Pawn(true))
    } else if y == 7 {
        PieceColor::White(back_rank_piece(x))
    } else {
        PieceColor::Empty
    }
}

/// The piece kind standing on column `x` of either back rank in the
/// standard starting position.
pub open spec fn back_rank_piece(x: int) -> Piece {
    if x == 0 || x == 7 {
        Piece::Rook
    } else if x == 1 || x == 6 {
        Piece::Knight
    } else if x == 2 || x == 5 {
        Piece::Bishop
    } else if x == 3 {
        Piece::Queen
    } else {
        Piece::King
    }
}

/// The exec counterpart of [`back_rank_piece`].
fn back_rank_piece_at(x: u8) -> (r: Piece)
    ensures
        r == back_rank_piece(x as int),
{
    if x == 0 || x == 7 {
        Piece::Rook
    } else if x == 1 || x == 6 {
        Piece::Knight
    } else if x == 2 || x == 5 {
        Piece::Bishop
    } else if x == 3 {
        Piece::Queen
    } else {
        Piece::King
    }
}

/// The exec counterpart of [`start_square`].
fn start_square_at(x: u8, y: u8) -> (r: PieceColor)
    ensures
        r == start_square(x as int, y as int),
{
    if y == 0 {
        PieceColor::Black(back_rank_piece_at(x))
    } else if y == 1 {
        PieceColor::Black(Piece::Pawn(true))
    } else if y == 6 {
        PieceColor::White(Piece::Pawn(true))
    } else if y == 7 {
        PieceColor::White(back_rank_piece_at(x))
    } else {
        PieceColor::Empty
    }
}

impl Board {
    /// The board is total: one square value for each of the 64 coordinates.
    pub open spec fn wf(self) -> bool {
        self@.len() == 64
    }

    /// An empty board. Building a board from a position string is not part
    /// of the engine, so no string may be passed.
    pub fn new(fen: Option<String>) -> (r: Self)
        requires
            fen is None,
        ensures
            r.wf(),
            forall|i: int| 0 <= i < 64 ==> r@[i] == PieceColor::Empty,
    {
        let mut data: Vec<PieceColor> = Vec::new();
        let mut i: usize = 0;
        while i < 64
            invariant
                i <= 64,
                data@.len() == i,
                forall|j: int| 0 <= j < i ==> data@[j] == PieceColor::Empty,
            decreases 64 - i,
        {
            data.push(PieceColor::Empty);
            i = i + 1;
        }
        Board { data }
    }

    /// The squares of the board as one row-major slice.
    pub fn squares(&self) -> (r: &[PieceColor])
        ensures
            r@ == self@,
    {
        self.data.as_slice()
    }

    /// The occupancy of the square at `pos`; `Empty` when nothing stands there.
    pub fn get_piece_at(&self, pos: &(u8, u8)) -> (r: PieceColor)
        requires
            self.wf(),
            pos_valid(*pos),
        ensures
            r == sq_at(self@, pos.0 as int, pos.1 as int),
    {
        self.data[pos.1 as usize * 8 + pos.0 as usize]
    }

    /// Unconditionally overwrite the square at `pos`. Legality checking is
    /// the move generator's and game state machine's responsibility.
    pub fn set_piece_at(&mut self, pos: &(u8, u8), piece_color: PieceColor)
        requires
            old(self).wf(),
            pos_valid(*pos),
        ensures
            final(self).wf(),
            final(self)@ == old(self)@.update(sq_index(pos.0 as int, pos.1 as int), piece_color),
    {
        self.data.set(pos.1 as usize * 8 + pos.0 as usize, piece_color);
    }
}

impl Default for Board {
    /// The standard chess starting position.
    fn default() -> (r: Self)
        ensures
            r.wf(),
            forall|x: int, y: int|
                on_board(x, y) ==> sq_at(r@, x, y) == start_square(x, y),
    {
        let mut data: Vec<PieceColor> = Vec::new();
        let mut i: usize = 0;
        while i < 64
            invariant
                i <= 64,
                data@.len() == i,
                forall|j: int| 0 <= j < i ==> data@[j] == start_square(j % 8, j / 8),
            decreases 64 - i,
        {
            let x = (i % 8) as u8;
            let y = (i / 8) as u8;
            data.push(start_square_at(x, y));
            i = i + 1;
        }
        let r = Board { data };
        proof {
            assert forall|x: int, y: int| on_board(x, y) implies sq_at(r@, x, y) == start_square(
                x,
                y,
            ) by {
                let i = sq_index(x, y);
                assert(i % 8 == x && i / 8 == y);
            }
        }
        r
    }
}

/// The first occupied square met when stepping from `(x, y)` along
/// `(dx, dy)`, within `fuel` steps and within the board; `None` when the
/// walk runs off the board, or out of fuel, over empty squares only.
pub open spec fn first_hit(b: Seq<PieceColor>, x: int, y: int, dx: int, dy: int, fuel: nat) -> Option<(int, int)>
    decreases fuel,
{
    if fuel == 0 {
        None
    } else {
        let nx = x + dx;
        let ny = y + dy;
        if !on_board(nx, ny) {
            None
        } else if sq_at(b, nx, ny) != PieceColor::Empty {
            Some((nx, ny))
        } else {
            first_hit(b, nx, ny, dx, dy, (fuel - 1) as nat)
        }
    }
}

/// The kind of the piece on square `pc` when it belongs to the side
/// opposite `turn`, and nothing otherwise.
pub open spec fn enemy_kind(pc: PieceColor, turn: GameTurn) -> Option<Piece> {
    match pc {
        PieceColor::White(p) => if turn == GameTurn::Black {
            Some(p)
        } else {
            None
        },
        PieceColor::Black(p) => if turn == GameTurn::White {
            Some(p)
        } else {
            None
        },
        PieceColor::Empty => None,
    }
}

/// Whether `pc` holds an enemy piece of one of the two given kinds.
pub open spec fn enemy_of_kinds(pc: PieceColor, turn: GameTurn, kind_a: Piece, kind_b: Piece) -> bool {
    match enemy_kind(pc, turn) {
        Some(p) => p == kind_a || p == kind_b,
        None => false,
    }
}

/// Whether a ray projected from the king square `k` along `d` meets, as its
/// first blocker, an enemy piece of one of the two given kinds.
pub open spec fn slider_threat(
    b: Seq<PieceColor>,
    turn: GameTurn,
    k: (int, int),
    d: (i8, i8),
    kind_a: Piece,
    kind_b: Piece,
) -> bool {
    match first_hit(b, k.0, k.1, d.0 as int, d.1 as int, 8) {
        Some(q) => enemy_of_kinds(sq_at(b, q.0, q.1), turn, kind_a, kind_b),
        None => false,
    }
}

/// Whether the fixed offset `d` from the king square `k` lands on an enemy
/// knight.
pub open spec fn knight_threat(b: Seq<PieceColor>, turn: GameTurn, k: (int, int), d: (i8, i8)) -> bool {
    let nx = k.0 + d.0 as int;
    let ny = k.1 + d.1 as int;
    on_board(nx, ny) && enemy_kind(sq_at(b, nx, ny), turn) == Some(Piece::Knight)
}

/// Whether the fixed offset `d` from the king square `k` lands on an enemy
/// pawn.
pub open spec fn pawn_threat(b: Seq<PieceColor>, turn: GameTurn, k: (int, int), d: (i8, i8)) -> bool {
    let nx = k.0 + d.0 as int;
    let ny = k.1 + d.1 as int;
    on_board(nx, ny) && (match enemy_kind(sq_at(b, nx, ny), turn) {
        Some(p) => p matches Piece::Pawn(_),
        None => false,
    })
}

/// Whether the side opposite `turn` attacks the square `(kx, ky)`: a
/// bishop or queen first-blocks a diagonal ray from it, a rook or queen
/// first-blocks an orthogonal ray, a knight stands a knight's jump away, or
/// a pawn stands on a square from which pawns of the opposite side capture
/// toward `(kx, ky)`. Kings do not attack in this model.
pub open spec fn is_check_spec(b: Seq<PieceColor>, turn: GameTurn, kx: int, ky: int) -> bool {
    let diag = move_set_spec(Piece::Bishop, turn);
    let orth = move_set_spec(Piece::Rook, turn);
    let jumps = move_set_spec(Piece::Knight, turn);
    let caps = capture_set_spec(turn);
    ||| (exists|j: int|
        0 <= j < diag.len() && slider_threat(b, turn, (kx, ky), diag[j], Piece::Bishop, Piece::Queen))
    ||| (exists|j: int|
        0 <= j < orth.len() && slider_threat(b, turn, (kx, ky), orth[j], Piece::Rook, Piece::Queen))
    ||| (exists|j: int| 0 <= j < jumps.len() && knight_threat(b, turn, (kx, ky), jumps[j]))
    ||| (exists|j: int| 0 <= j < caps.len() && pawn_threat(b, turn, (kx, ky), caps[j]))
}

/// The enemy pieces first-blocking the rays projected from `(kx, ky)` along
/// each of `dirs`, in direction order; rays blocked by a friendly piece or
/// running off the board contribute nothing.
pub open spec fn slide_hits(b: Seq<PieceColor>, turn: GameTurn, kx: int, ky: int, dirs: Seq<(i8, i8)>) -> Seq<PieceColor>
    decreases dirs.len(),
{
    if dirs.len() == 0 {
        Seq::empty()
    } else {
        slide_hits(b, turn, kx, ky, dirs.drop_last()) + (match first_hit(
            b,
            kx,
            ky,
            dirs.last().0 as int,
            dirs.last().1 as int,
            8,
        ) {
            Some(q) => if is_enemy(sq_at(b, q.0, q.1), turn) {
                seq![sq_at(b, q.0, q.1)]
            } else {
                Seq::empty()
            },
            None => Seq::empty(),
        })
    }
}

/// Walk from `(x, y)` along `(dx, dy)` until a square is occupied, the board
/// edge is reached, or `fuel` steps were taken; exactly [`first_hit`].
fn first_hit_at(board: &Board, x: u8, y: u8, dx: i8, dy: i8, fuel: u8) -> (r: Option<(u8, u8)>)
    requires
        board.wf(),
        x < 8,
        y < 8,
    ensures
        match r {
            Some(q) => pos_valid(q) && first_hit(board@, x as int, y as int, dx as int, dy as int, fuel as nat)
                == Some((q.0 as int, q.1 as int)),
            None => first_hit(board@, x as int, y as int, dx as int, dy as int, fuel as nat) is None,
        },
{
    let mut cx: u8 = x;
    let mut cy: u8 = y;
    let mut left: u8 = fuel;
    while left > 0
        invariant
            board.wf(),
            cx < 8,
            cy < 8,
            first_hit(board@, x as int, y as int, dx as int, dy as int, fuel as nat) == first_hit(
                board@,
                cx as int,
                cy as int,
                dx as int,
                dy as int,
                left as nat,
            ),
        decreases left,
    {
        let nx = cx as i32 + dx as i32;
        let ny = cy as i32 + dy as i32;
        if nx < 0 || nx >= 8 || ny < 0 || ny >= 8 {
            return None;
        }
        let q = (nx as u8, ny as u8);
        let pc = board.get_piece_at(&q);
        if !matches!(pc, PieceColor::Empty) {
            return Some(q);
        }
        cx = q.0;
        cy = q.1;
        left = left - 1;
    }
    None
}

impl Board {
    /// The enemy pieces first-blocking the rays projected from the king's
    /// square along each direction of `move_set`, as [`slide_hits`]
    /// describes.
    pub fn is_type_check(&self, move_set: Vec<(i8, i8)>, turn: &GameTurn, king_pos: &(u8, u8)) -> (r:
        Vec<PieceColor>)
        requires
            self.wf(),
            pos_valid(*king_pos),
        ensures
            r@ == slide_hits(self@, *turn, king_pos.0 as int, king_pos.1 as int, move_set@),
    {
        let mut r: Vec<PieceColor> = Vec::new();
        let mut i: usize = 0;
        while i < move_set.len()
            invariant
                self.wf(),
                pos_valid(*king_pos),
                i <= move_set@.len(),
                r@ == slide_hits(
                    self@,
                    *turn,
                    king_pos.0 as int,
                    king_pos.1 as int,
                    move_set@.take(i as int),
                ),
            decreases move_set@.len() - i,
        {
            let d = move_set[i];
            let ghost old_r = r@;
            match first_hit_at(self, king_pos.0, king_pos.1, d.0, d.1, 8) {
                Some(q) => {
                    let pc = self.get_piece_at(&q);
                    if square_enemy(&pc, turn) {
                        r.push(pc);
                        proof {
                            assert(r@ =~= old_r + seq![pc]);
                        }
                    }
                },
                None => {},
            }
            proof {
                let pre = move_set@.take(i as int);
                let cur = move_set@.take(i as int + 1);
                assert(cur.drop_last() =~= pre);
                assert(cur.last() == move_set@[i as int]);
                if r@ != old_r {
                } else {
                    assert(old_r + Seq::<PieceColor>::empty() =~= old_r);
                }
                assert(r@ == slide_hits(
                    self@,
                    *turn,
                    king_pos.0 as int,
                    king_pos.1 as int,
                    cur,
                ));
            }
            i = i + 1;
        }
        proof {
            assert(move_set@.take(move_set@.len() as int) =~= move_set@);
        }
        r
    }

    /// Whether the side opposite `turn` attacks the square `king_pos`,
    /// exactly as [`is_check_spec`] describes.
    pub fn is_check(&self, turn: &GameTurn, king_pos: &(u8, u8)) -> (r: bool)
        requires
            self.wf(),
            pos_valid(*king_pos),
        ensures
            r == is_check_spec(self@, *turn, king_pos.0 as int, king_pos.1 as int),
    {
        let ghost kx = king_pos.0 as int;
        let ghost ky = king_pos.1 as int;
        let diag = Piece::Bishop.get_move_set(turn);
        if self.any_slider_threat(&diag, turn, king_pos, Piece::Bishop, Piece::Queen) {
            return true;
        }
        let orth = Piece::Rook.get_move_set(turn);
        if self.any_slider_threat(&orth, turn, king_pos, Piece::Rook, Piece::Queen) {
            return true;
        }
        let jumps = Piece::Knight.get_move_set(turn);
        let mut j: usize = 0;
        while j < jumps.len()
            invariant
                self.wf(),
                pos_valid(*king_pos),
                jumps@ == move_set_spec(Piece::Knight, *turn),
                j <= jumps@.len(),
                forall|jj: int|
                    0 <= jj < j ==> !knight_threat(self@, *turn, (kx, ky), jumps@[jj]),
                kx == king_pos.0 as int,
                ky == king_pos.1 as int,
            decreases jumps@.len() - j,
        {
            let d = jumps[j];
            let nx = king_pos.0 as i32 + d.0 as i32;
            let ny = king_pos.1 as i32 + d.1 as i32;
            if 0 <= nx && nx < 8 && 0 <= ny && ny < 8 {
                let pc = self.get_piece_at(&(nx as u8, ny as u8));
                let is_knight = match pc {
                    PieceColor::White(p) => matches!(turn, GameTurn::Black) && matches!(
                        p,
                        Piece::Knight,
                    ),
                    PieceColor::Black(p) => matches!(turn, GameTurn::White) && matches!(
                        p,
                        Piece::Knight,
                    ),
                    PieceColor::Empty => false,
                };
                if is_knight {
                    proof {
                        assert(knight_threat(self@, *turn, (kx, ky), jumps@[j as int]));
                    }
                    return true;
                }
            }
            j = j + 1;
        }
        let caps = Piece::Pawn(true).get_capture_set(turn);
        let mut j: usize = 0;
        while j < caps.len()
            invariant
                self.wf(),
                pos_valid(*king_pos),
                caps@ == capture_set_spec(*turn),
                j <= caps@.len(),
                forall|jj: int| 0 <= jj < j ==> !pawn_threat(self@, *turn, (kx, ky), caps@[jj]),
                kx == king_pos.0 as int,
                ky == king_pos.1 as int,
            decreases caps@.len() - j,
        {
            let d = caps[j];
            let nx = king_pos.0 as i32 + d.0 as i32;
            let ny = king_pos.1 as i32 + d.1 as i32;
            if 0 <= nx && nx < 8 && 0 <= ny && ny < 8 {
                let pc = self.get_piece_at(&(nx as u8, ny as u8));
                let is_pawn = match pc {
                    PieceColor::White(p) => matches!(turn, GameTurn::Black) && matches!(
                        p,
                        Piece::Pawn(_),
                    ),
                    PieceColor::Black(p) => matches!(turn, GameTurn::White) && matches!(
                        p,
                        Piece::Pawn(_),
                    ),
                    PieceColor::Empty => false,
                };
                if is_pawn {
                    proof {
                        assert(pawn_threat(self@, *turn, (kx, ky), caps@[j as int]));
                    }
                    return true;
                }
            }
            j = j + 1;
        }
        false
    }

    /// Whether any ray projected from `king_pos` along one of `dirs`
    /// first-blocks on an enemy piece of one of the two given kinds.
    fn any_slider_threat(
        &self,
        dirs: &Vec<(i8, i8)>,
        turn: &GameTurn,
        king_pos: &(u8, u8),
        kind_a: Piece,
        kind_b: Piece,
    ) -> (r: bool)
        requires
            self.wf(),
            pos_valid(*king_pos),
        ensures
            r == exists|j: int|
                0 <= j < dirs@.len() && slider_threat(
                    self@,
                    *turn,
                    (king_pos.0 as int, king_pos.1 as int),
                    dirs@[j],
                    kind_a,
                    kind_b,
                ),
    {
        let ghost k = (king_pos.0 as int, king_pos.1 as int);
        let mut j: usize = 0;
        while j < dirs.len()
            invariant
                self.wf(),
                pos_valid(*king_pos),
                j <= dirs@.len(),
                k == (king_pos.0 as int, king_pos.1 as int),
                forall|jj: int|
                    0 <= jj < j ==> !slider_threat(self@, *turn, k, dirs@[jj], kind_a, kind_b),
            decreases dirs@.len() - j,
        {
            let d = dirs[j];
            match first_hit_at(self, king_pos.0, king_pos.1, d.0, d.1, 8) {
                Some(q) => {
                    let pc = self.get_piece_at(&q);
                    let matches_kind = match pc {
                        PieceColor::White(p) => matches!(turn, GameTurn::Black) && (p == kind_a || p
                            == kind_b),
                        PieceColor::Black(p) => matches!(turn, GameTurn::White) && (p == kind_a || p
                            == kind_b),
                        PieceColor::Empty => false,
                    };
                    if matches_kind {
                        proof {
                            assert(slider_threat(self@, *turn, k, dirs@[j as int], kind_a, kind_b));
                        }
                        return true;
                    }
                },
                None => {},
            }
            j = j + 1;
        }
        false
    }

    /// The state the game enters after a piece of side `turn` has landed on
    /// `pos`: `Promotion(pos)` when that piece is a pawn of `turn` standing
    /// on the opposing back rank, `InProgress` otherwise.
    pub fn check_promotion(&self, pos: &(u8, u8), turn: &GameTurn) -> (r: Option<GameState>)
        requires
            self.wf(),
            pos_valid(*pos),
        ensures
            r == Some(promotion_outcome(self@, *pos, *turn)),
    {
        let pc = self.get_piece_at(pos);
        let promoting = match (pc, turn) {
            (PieceColor::White(Piece::Pawn(_)), GameTurn::White) => pos.1 == 0,
            (PieceColor::Black(Piece::Pawn(_)), GameTurn::Black) => pos.1 == 7,
            _ => false,
        };
        if promoting {
            let rank = match Rank::from_index(pos.0) {
                Ok(rk) => rk,
                Err(_) => {
                    return None;
                },
            };
            let file = match File::from_index(pos.1) {
                Ok(f) => f,
                Err(_) => {
                    return None;
                },
            };
            Some(GameState::Promotion((rank, file)))
        } else {
            Some(GameState::InProgress)
        }
    }
}

/// Whether the square `pos` holds a pawn of side `turn` standing on the
/// opposing back rank, which entitles it to promote.
pub open spec fn is_promoting(b: Seq<PieceColor>, pos: (u8, u8), turn: GameTurn) -> bool {
    match sq_at(b, pos.0 as int, pos.1 as int) {
        PieceColor::White(p) => (p matches Piece::Pawn(_)) && turn == GameTurn::White && pos.1 == 0,
        PieceColor::Black(p) => (p matches Piece::Pawn(_)) && turn == GameTurn::Black && pos.1 == 7,
        PieceColor::Empty => false,
    }
}

/// The game state [`Board::check_promotion`] reports for a landing square.
pub open spec fn promotion_outcome(b: Seq<PieceColor>, pos: (u8, u8), turn: GameTurn) -> GameState {
    if is_promoting(b, pos, turn) {
        GameState::Promotion(pos_name(pos))
    } else {
        GameState::InProgress
    }
}

} // verus!
