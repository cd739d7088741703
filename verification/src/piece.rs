//! Falling pieces: the eighteen kinds, their 8x8 local grids, collision
//! against the board, the rotations (generic quarter turns and the hand-made
//! steps of Wall, Star and Weird Long), and locking into the board.

use vstd::prelude::*;
use crate::board::Board;
use crate::cell::{Cell, CellKind};
use crate::constants::{
    BT_4X4_PIECE, BT_BOX_PIECE, BT_CAP_PIECE, BT_DIE_PIECE, BT_DOG_PIECE, BT_EL_PIECE,
    BT_HAP_PIECE, BT_IVORY, BT_LONG_DONG_PIECE, BT_LONG_PIECE, BT_PIECE_HEIGHT, BT_PIECE_WIDTH,
    BT_PLUG_PIECE, BT_RDOG_PIECE, BT_REL_PIECE, BT_SL_LF_PIECE, BT_SL_RT_PIECE, BT_STAR_PIECE,
    BT_TOWER_PIECE, BT_WALL_PIECE, BT_WLONG_PIECE,
};

verus! {

/// The eighteen piece kinds, in id order.
#[derive(Clone, Copy, PartialEq, Eq, Debug, Structural)]
pub enum PieceKind {
    El,
    RevEl,
    SlideRight,
    SlideLeft,
    Long,
    Plug,
    Box,
    Die,
    Happy,
    Dog,
    RevDog,
    Cap,
    Wall,
    Tower,
    Star,
    WeirdLong,
    FourByFour,
    LongDong,
}

/// The id (1..=18) of a kind.
pub open spec fn kind_id(k: PieceKind) -> i32 {
    match k {
        PieceKind::El => BT_EL_PIECE,
        PieceKind::RevEl => BT_REL_PIECE,
        PieceKind::SlideRight => BT_SL_RT_PIECE,
        PieceKind::SlideLeft => BT_SL_LF_PIECE,
        PieceKind::Long => BT_LONG_PIECE,
        PieceKind::Plug => BT_PLUG_PIECE,
        PieceKind::Box => BT_BOX_PIECE,
        PieceKind::Die => BT_DIE_PIECE,
        PieceKind::Happy => BT_HAP_PIECE,
        PieceKind::Dog => BT_DOG_PIECE,
        PieceKind::RevDog => BT_RDOG_PIECE,
        PieceKind::Cap => BT_CAP_PIECE,
        PieceKind::Wall => BT_WALL_PIECE,
        PieceKind::Tower => BT_TOWER_PIECE,
        PieceKind::Star => BT_STAR_PIECE,
        PieceKind::WeirdLong => BT_WLONG_PIECE,
        PieceKind::FourByFour => BT_4X4_PIECE,
        PieceKind::LongDong => BT_LONG_DONG_PIECE,
    }
}

/// The kind with id `id`, if any.
pub open spec fn kind_of_id(id: i32) -> Option<PieceKind> {
    if id == BT_EL_PIECE {
        Some(PieceKind::El)
    } else if id == BT_REL_PIECE {
        Some(PieceKind::RevEl)
    } else if id == BT_SL_RT_PIECE {
        Some(PieceKind::SlideRight)
    } else if id == BT_SL_LF_PIECE {
        Some(PieceKind::SlideLeft)
    } else if id == BT_LONG_PIECE {
        Some(PieceKind::Long)
    } else if id == BT_PLUG_PIECE {
        Some(PieceKind::Plug)
    } else if id == BT_BOX_PIECE {
        Some(PieceKind::Box)
    } else if id == BT_DIE_PIECE {
        Some(PieceKind::Die)
    } else if id == BT_HAP_PIECE {
        Some(PieceKind::Happy)
    } else if id == BT_DOG_PIECE {
        Some(PieceKind::Dog)
    } else if id == BT_RDOG_PIECE {
        Some(PieceKind::RevDog)
    } else if id == BT_CAP_PIECE {
        Some(PieceKind::Cap)
    } else if id == BT_WALL_PIECE {
        Some(PieceKind::Wall)
    } else if id == BT_TOWER_PIECE {
        Some(PieceKind::Tower)
    } else if id == BT_STAR_PIECE {
        Some(PieceKind::Star)
    } else if id == BT_WLONG_PIECE {
        Some(PieceKind::WeirdLong)
    } else if id == BT_4X4_PIECE {
        Some(PieceKind::FourByFour)
    } else if id == BT_LONG_DONG_PIECE {
        Some(PieceKind::LongDong)
    } else {
        None
    }
}

/// Ids and kinds correspond one to one: every kind's id leads back to it, and
/// every id that names a kind is that kind's id.
pub proof fn lemma_kind_id_round_trip(k: PieceKind, id: i32)
    ensures
        kind_of_id(kind_id(k)) == Some(k),
        kind_of_id(id) matches Some(k2) ==> kind_id(k2) == id,
        kind_of_id(id) is Some <==> 1 <= id <= 18,
{
}

impl PieceKind {
    /// The kind's id (1..=18).
    pub fn id(self) -> (r: i32)
        ensures
            r == kind_id(self),
    {
        match self {
            PieceKind::El => BT_EL_PIECE,
            PieceKind::RevEl => BT_REL_PIECE,
            PieceKind::SlideRight => BT_SL_RT_PIECE,
            PieceKind::SlideLeft => BT_SL_LF_PIECE,
            PieceKind::Long => BT_LONG_PIECE,
            PieceKind::Plug => BT_PLUG_PIECE,
            PieceKind::Box => BT_BOX_PIECE,
            PieceKind::Die => BT_DIE_PIECE,
            PieceKind::Happy => BT_HAP_PIECE,
            PieceKind::Dog => BT_DOG_PIECE,
            PieceKind::RevDog => BT_RDOG_PIECE,
            PieceKind::Cap => BT_CAP_PIECE,
            PieceKind::Wall => BT_WALL_PIECE,
            PieceKind::Tower => BT_TOWER_PIECE,
            PieceKind::Star => BT_STAR_PIECE,
            PieceKind::WeirdLong => BT_WLONG_PIECE,
            PieceKind::FourByFour => BT_4X4_PIECE,
            PieceKind::LongDong => BT_LONG_DONG_PIECE,
        }
    }

    /// The kind with id `id`, or `None` outside 1..=18.
    pub fn from_id(id: i32) -> (r: Option<PieceKind>)
        ensures
            r == kind_of_id(id),
    {
        if id == BT_EL_PIECE {
            Some(PieceKind::El)
        } else if id == BT_REL_PIECE {
            Some(PieceKind::RevEl)
        } else if id == BT_SL_RT_PIECE {
            Some(PieceKind::SlideRight)
        } else if id == BT_SL_LF_PIECE {
            Some(PieceKind::SlideLeft)
        } else if id == BT_LONG_PIECE {
            Some(PieceKind::Long)
        } else if id == BT_PLUG_PIECE {
            Some(PieceKind::Plug)
        } else if id == BT_BOX_PIECE {
            Some(PieceKind::Box)
        } else if id == BT_DIE_PIECE {
            Some(PieceKind::Die)
        } else if id == BT_HAP_PIECE {
            Some(PieceKind::Happy)
        } else if id == BT_DOG_PIECE {
            Some(PieceKind::Dog)
        } else if id == BT_RDOG_PIECE {
            Some(PieceKind::RevDog)
        } else if id == BT_CAP_PIECE {
            Some(PieceKind::Cap)
        } else if id == BT_WALL_PIECE {
            Some(PieceKind::Wall)
        } else if id == BT_TOWER_PIECE {
            Some(PieceKind::Tower)
        } else if id == BT_STAR_PIECE {
            Some(PieceKind::Star)
        } else if id == BT_WLONG_PIECE {
            Some(PieceKind::WeirdLong)
        } else if id == BT_4X4_PIECE {
            Some(PieceKind::FourByFour)
        } else if id == BT_LONG_DONG_PIECE {
            Some(PieceKind::LongDong)
        } else {
            None
        }
    }
}

/// The squares of a freshly built piece of kind `k`, as `(column, row)` in its grid.
pub open spec fn shape(k: PieceKind) -> Set<(int, int)> {
    match k {
        PieceKind::El => set![(1int, 0int), (1, 1), (1, 2), (2, 2)],
        PieceKind::RevEl => set![(2int, 0int), (2, 1), (2, 2), (1, 2)],
        PieceKind::SlideLeft => set![(0int, 1int), (1, 1), (1, 2), (2, 2)],
        PieceKind::SlideRight => set![(0int, 2int), (1, 2), (1, 1), (2, 1)],
        PieceKind::Long => set![(0int, 1int), (1, 1), (2, 1), (3, 1)],
        PieceKind::Plug => set![(0int, 2int), (1, 2), (1, 1), (2, 2)],
        PieceKind::Box => set![(1int, 1int), (1, 2), (2, 1), (2, 2)],
        PieceKind::Die => set![(1int, 1int)],
        PieceKind::Happy => set![(1int, 1int)],
        PieceKind::Dog => set![(0int, 0int), (1, 1), (2, 1), (2, 2)],
        PieceKind::RevDog => set![(0int, 1int), (0, 2), (1, 1), (2, 2)],
        PieceKind::Cap => set![(0int, 2int), (1, 1), (2, 1), (3, 2)],
        PieceKind::Wall => set![(0int, 1int), (0, 2), (3, 1), (3, 2)],
        PieceKind::Tower => set![(2int, 0int), (1, 1), (0, 1), (2, 2)],
        PieceKind::Star => set![(1int, 0int), (0, 1), (1, 2), (2, 1)],
        PieceKind::WeirdLong => set![(1int, 0int), (1, 1), (2, 2), (2, 3)],
        PieceKind::FourByFour => set![
            (0int, 0int), (1, 0), (2, 0), (3, 0), (0, 3), (1, 3), (2, 3), (3, 3), (0, 1), (0, 2), (3, 1), (3, 2)
        ],
        PieceKind::LongDong => set![(0int, 0int), (1, 0), (2, 0), (3, 0), (4, 0), (5, 0), (6, 0), (7, 0)],
    }
}

/// The piece color of kind `k`.
pub open spec fn kind_color(k: PieceKind) -> i32 {
    match k {
        PieceKind::El | PieceKind::Dog => 2,
        PieceKind::RevEl | PieceKind::RevDog => 3,
        PieceKind::SlideRight | PieceKind::Cap => 4,
        PieceKind::SlideLeft | PieceKind::Wall => 5,
        PieceKind::Long | PieceKind::Tower | PieceKind::LongDong => 6,
        PieceKind::Plug | PieceKind::Star => 7,
        PieceKind::Box | PieceKind::WeirdLong | PieceKind::FourByFour => 8,
        PieceKind::Die | PieceKind::Happy => BT_IVORY,
    }
}

/// The side of the square that a quarter turn of kind `k` rotates (0: the kind
/// does not turn).
pub open spec fn kind_rot(k: PieceKind) -> usize {
    match k {
        PieceKind::Box | PieceKind::Die | PieceKind::Happy | PieceKind::FourByFour => 0,
        PieceKind::Long | PieceKind::Cap | PieceKind::Wall | PieceKind::WeirdLong => 4,
        PieceKind::LongDong => 8,
        _ => 3,
    }
}

/// How many orientations kind `k` cycles through.
pub open spec fn kind_orientations(k: PieceKind) -> i32 {
    match k {
        PieceKind::Star => 2,
        PieceKind::WeirdLong => 6,
        _ => 4,
    }
}

/// The box every square of a fresh piece of kind `k` holds.
pub open spec fn kind_box(k: PieceKind, die_value: u8) -> Cell {
    match k {
        PieceKind::Die => Cell { kind: CellKind::Die(die_value), hidden: false },
        PieceKind::Happy => Cell { kind: CellKind::Happy { landed: false }, hidden: false },
        _ => Cell { kind: CellKind::Color(kind_color(k)), hidden: false },
    }
}

/// Rust's remainder `a % b` (truncating toward zero), for `b > 0`.
pub open spec fn rem(a: int, b: int) -> int {
    if a >= 0 {
        a % b
    } else {
        -((-a) % b)
    }
}

/// A falling piece: an 8x8 local grid (`cells[column][row]`) whose top-left
/// sits at board `(x, y)`, with its color and rotation bookkeeping.
#[derive(Clone, Copy, Debug)]
pub struct Piece {
    pub kind: PieceKind,
    pub x: i32,
    pub y: i32,
    pub color: i32,
    /// Side of the square a quarter turn rotates; 0 when the piece cannot turn.
    pub rot: usize,
    pub orientation: i32,
    /// 4 for most kinds, 2 for Star, 6 for Weird Long.
    pub orientations: i32,
    /// Step of the hand-made rotations (Wall, Star, Weird Long).
    pub state: i32,
    pub cells: [[Option<Cell>; BT_PIECE_HEIGHT]; BT_PIECE_WIDTH],
}

impl Piece {
    /// The square of the local grid at `(i, j)`; `None` outside the grid.
    pub open spec fn sq(&self, i: int, j: int) -> Option<Cell> {
        if 0 <= i < 8 && 0 <= j < 8 {
            self.cells[i][j]
        } else {
            None
        }
    }

    /// The rotation bookkeeping is in range.
    pub open spec fn wf(&self) -> bool {
        &&& self.rot <= 8
        &&& self.orientations >= 1
        &&& 0 <= self.orientation < self.orientations
    }

    /// Everything but the grid is the same.
    pub open spec fn same_but_cells(&self, o: &Piece) -> bool {
        &&& self.kind == o.kind
        &&& self.x == o.x
        &&& self.y == o.y
        &&& self.color == o.color
        &&& self.rot == o.rot
        &&& self.orientation == o.orientation
        &&& self.orientations == o.orientations
        &&& self.state == o.state
    }

    /// Build a fresh piece of `kind` with its grid's top-left at board `(x, y)`.
    /// `die_value` is the pip count of a Die piece's box (unused otherwise).
    pub fn construct(kind: PieceKind, x: i32, y: i32, die_value: u8) -> (p: Piece)
        ensures
            p.kind == kind,
            p.x == x,
            p.y == y,
            p.color == kind_color(kind),
            p.rot == kind_rot(kind),
            p.orientation == 0,
            p.orientations == kind_orientations(kind),
            p.state == 0,
            p.wf(),
            forall|i: int, j: int| 0 <= i < 8 && 0 <= j < 8 ==> #[trigger] p.cells[i][j] == if shape(kind).contains((i, j)) {
                Some(kind_box(kind, die_value))
            } else {
                None
            },
    {
        let mut cells: [[Option<Cell>; BT_PIECE_HEIGHT]; BT_PIECE_WIDTH] = [[None; BT_PIECE_HEIGHT]; BT_PIECE_WIDTH];
        let (color, rot, orientations) = match kind {
            PieceKind::El => {
                cells[1][0] = Some(Cell::color(2));
                cells[1][1] = Some(Cell::color(2));
                cells[1][2] = Some(Cell::color(2));
                cells[2][2] = Some(Cell::color(2));
                (2, 3, 4)
            },
            PieceKind::RevEl => {
                cells[2][0] = Some(Cell::color(3));
                cells[2][1] = Some(Cell::color(3));
                cells[2][2] = Some(Cell::color(3));
                cells[1][2] = Some(Cell::color(3));
                (3, 3, 4)
            },
            PieceKind::SlideLeft => {
                cells[0][1] = Some(Cell::color(5));
                cells[1][1] = Some(Cell::color(5));
                cells[1][2] = Some(Cell::color(5));
                cells[2][2] = Some(Cell::color(5));
                (5, 3, 4)
            },
            PieceKind::SlideRight => {
                cells[0][2] = Some(Cell::color(4));
                cells[1][2] = Some(Cell::color(4));
                cells[1][1] = Some(Cell::color(4));
                cells[2][1] = Some(Cell::color(4));
                (4, 3, 4)
            },
            PieceKind::Long => {
                cells[0][1] = Some(Cell::color(6));
                cells[1][1] = Some(Cell::color(6));
                cells[2][1] = Some(Cell::color(6));
                cells[3][1] = Some(Cell::color(6));
                (6, 4, 4)
            },
            PieceKind::Plug => {
                cells[0][2] = Some(Cell::color(7));
                cells[1][2] = Some(Cell::color(7));
                cells[1][1] = Some(Cell::color(7));
                cells[2][2] = Some(Cell::color(7));
                (7, 3, 4)
            },
            PieceKind::Box => {
                cells[1][1] = Some(Cell::color(8));
                cells[1][2] = Some(Cell::color(8));
                cells[2][1] = Some(Cell::color(8));
                cells[2][2] = Some(Cell::color(8));
                (8, 0, 4)
            },
            PieceKind::Die => {
                cells[1][1] = Some(Cell::die(die_value));
                (BT_IVORY, 0, 4)
            },
            PieceKind::Happy => {
                cells[1][1] = Some(Cell::happy());
                (BT_IVORY, 0, 4)
            },
            PieceKind::Dog => {
                cells[0][0] = Some(Cell::color(2));
                cells[1][1] = Some(Cell::color(2));
                cells[2][1] = Some(Cell::color(2));
                cells[2][2] = Some(Cell::color(2));
                (2, 3, 4)
            },
            PieceKind::RevDog => {
                cells[0][1] = Some(Cell::color(3));
                cells[0][2] = Some(Cell::color(3));
                cells[1][1] = Some(Cell::color(3));
                cells[2][2] = Some(Cell::color(3));
                (3, 3, 4)
            },
            PieceKind::Cap => {
                cells[0][2] = Some(Cell::color(4));
                cells[1][1] = Some(Cell::color(4));
                cells[2][1] = Some(Cell::color(4));
                cells[3][2] = Some(Cell::color(4));
                (4, 4, 4)
            },
            PieceKind::Wall => {
                cells[0][1] = Some(Cell::color(5));
                cells[0][2] = Some(Cell::color(5));
                cells[3][1] = Some(Cell::color(5));
                cells[3][2] = Some(Cell::color(5));
                (5, 4, 4)
            },
            PieceKind::Tower => {
                cells[2][0] = Some(Cell::color(6));
                cells[1][1] = Some(Cell::color(6));
                cells[0][1] = Some(Cell::color(6));
                cells[2][2] = Some(Cell::color(6));
                (6, 3, 4)
            },
            PieceKind::Star => {
                cells[1][0] = Some(Cell::color(7));
                cells[0][1] = Some(Cell::color(7));
                cells[1][2] = Some(Cell::color(7));
                cells[2][1] = Some(Cell::color(7));
                (7, 3, 2)
            },
            PieceKind::WeirdLong => {
                cells[1][0] = Some(Cell::color(8));
                cells[1][1] = Some(Cell::color(8));
                cells[2][2] = Some(Cell::color(8));
                cells[2][3] = Some(Cell::color(8));
                (8, 4, 6)
            },
            PieceKind::FourByFour => {
                cells[0][0] = Some(Cell::color(8));
                cells[1][0] = Some(Cell::color(8));
                cells[2][0] = Some(Cell::color(8));
                cells[3][0] = Some(Cell::color(8));
                cells[0][3] = Some(Cell::color(8));
                cells[1][3] = Some(Cell::color(8));
                cells[2][3] = Some(Cell::color(8));
                cells[3][3] = Some(Cell::color(8));
                cells[0][1] = Some(Cell::color(8));
                cells[0][2] = Some(Cell::color(8));
                cells[3][1] = Some(Cell::color(8));
                cells[3][2] = Some(Cell::color(8));
                (8, 0, 4)
            },
            PieceKind::LongDong => {
                cells[0][0] = Some(Cell::color(6));
                cells[1][0] = Some(Cell::color(6));
                cells[2][0] = Some(Cell::color(6));
                cells[3][0] = Some(Cell::color(6));
                cells[4][0] = Some(Cell::color(6));
                cells[5][0] = Some(Cell::color(6));
                cells[6][0] = Some(Cell::color(6));
                cells[7][0] = Some(Cell::color(6));
                (6, 8, 4)
            },
        };
        Piece { kind, x, y, color, rot, orientation: 0, orientations, state: 0, cells }
    }
}

impl Piece {
    /// Every square of the piece is free on `board` with the grid at `(x, y)`.
    pub open spec fn fits(&self, board: &Board, x: int, y: int) -> bool {
        forall|i: int, j: int| 0 <= i < 8 && 0 <= j < 8 && (#[trigger] self.sq(i, j)) is Some ==> !board.occupied_spec(x + i, y + j)
    }

    /// Whether grid square `(x, y)` holds a box.
    pub fn is_mapped(&self, x: usize, y: usize) -> (b: bool)
        requires
            x < 8,
            y < 8,
        ensures
            b == self.cells[x as int][y as int] is Some,
    {
        self.cells[x][y].is_some()
    }

    /// Every box of the grid, placed with the grid at `(x, y)`, lands on
    /// coordinates that fit in `i32`.
    pub open spec fn reach_fits(&self, x: int, y: int) -> bool {
        forall|i: int, j: int| 0 <= i < 8 && 0 <= j < 8 && (#[trigger] self.sq(i, j)) is Some ==> x + i <= i32::MAX && y + j <= i32::MAX
    }

    /// Whether the piece can sit with its grid at board `(x, y)`.
    pub fn can_move_to(&self, board: &Board, x: i32, y: i32) -> (b: bool)
        requires
            board.wf(),
            self.reach_fits(x as int, y as int),
        ensures
            b == self.fits(board, x as int, y as int),
    {
        let mut i: usize = 0;
        while i < BT_PIECE_WIDTH
            invariant
                board.wf(),
                self.reach_fits(x as int, y as int),
                0 <= i <= 8,
                forall|a: int, b: int| 0 <= a < i && 0 <= b < 8 && (#[trigger] self.sq(a, b)) is Some ==> !board.occupied_spec(x + a, y + b),
            decreases 8 - i,
        {
            let mut j: usize = 0;
            while j < BT_PIECE_HEIGHT
                invariant
                    board.wf(),
                    self.reach_fits(x as int, y as int),
                    0 <= i < 8,
                    0 <= j <= 8,
                    forall|a: int, b: int| (0 <= a < i && 0 <= b < 8 || a == i && 0 <= b < j) && (#[trigger] self.sq(a, b)) is Some
                        ==> !board.occupied_spec(x + a, y + b),
                decreases 8 - j,
            {
                assert(self.sq(i as int, j as int) == self.cells[i as int][j as int]);
                if self.cells[i][j].is_some() && board.occupied(x + i as i32, y + j as i32) {
                    return false;
                }
                j = j + 1;
            }
            i = i + 1;
        }
        true
    }

    /// Move the grid to board `(x, y)` if the piece fits there; otherwise leave
    /// it where it is. Returns whether it moved.
    pub fn move_to(&mut self, board: &Board, x: i32, y: i32) -> (b: bool)
        requires
            board.wf(),
            old(self).reach_fits(x as int, y as int),
        ensures
            b == old(self).fits(board, x as int, y as int),
            final(self).x == if b { x } else { old(self).x },
            final(self).y == if b { y } else { old(self).y },
            final(self).cells == old(self).cells,
            final(self).kind == old(self).kind,
            final(self).color == old(self).color,
            final(self).rot == old(self).rot,
            final(self).orientation == old(self).orientation,
            final(self).orientations == old(self).orientations,
            final(self).state == old(self).state,
    {
        if self.can_move_to(board, x, y) {
            self.x = x;
            self.y = y;
            true
        } else {
            false
        }
    }

    /// The grid square that a quarter turn (clockwise, or counter-clockwise
    /// when `reverse`) brings to `(i, j)`: the `rot` by `rot` corner turns, the
    /// rest stays.
    pub open spec fn turned(&self, reverse: bool, i: int, j: int) -> Option<Cell> {
        let r = self.rot as int;
        if 0 <= i < r && 0 <= j < r {
            if reverse {
                self.sq(j, r - 1 - i)
            } else {
                self.sq(r - 1 - j, i)
            }
        } else {
            self.sq(i, j)
        }
    }

    /// The turned corner is free on `board` with the grid at `(x, y)`.
    pub open spec fn turn_fits(&self, board: &Board, reverse: bool, x: int, y: int) -> bool {
        forall|i: int, j: int|
            0 <= i < self.rot && 0 <= j < self.rot && (#[trigger] self.turned(reverse, i, j)) is Some ==> !board.occupied_spec(x + i, y + j)
    }

    /// Whether a clockwise quarter turn would fit with the grid at board `(x, y)`
    /// (never for a piece that does not turn).
    pub fn can_rotate(&self, board: &Board, x: i32, y: i32) -> (b: bool)
        requires
            board.wf(),
            self.rot <= 8,
            x <= i32::MAX - 8,
            y <= i32::MAX - 8,
        ensures
            b == (self.rot != 0 && self.turn_fits(board, false, x as int, y as int)),
    {
        if self.rot == 0 {
            return false;
        }
        let r = self.rot;
        let mut i: usize = 0;
        while i < r
            invariant
                board.wf(),
                r == self.rot,
                1 <= r <= 8,
                x <= i32::MAX - 8,
                y <= i32::MAX - 8,
                0 <= i <= r,
                forall|a: int, b: int| 0 <= a < i && 0 <= b < r && (#[trigger] self.turned(false, a, b)) is Some
                    ==> !board.occupied_spec(x + a, y + b),
            decreases r - i,
        {
            let mut j: usize = 0;
            while j < r
                invariant
                    board.wf(),
                    r == self.rot,
                    1 <= r <= 8,
                    x <= i32::MAX - 8,
                    y <= i32::MAX - 8,
                    0 <= i < r,
                    0 <= j <= r,
                    forall|a: int, b: int| (0 <= a < i && 0 <= b < r || a == i && 0 <= b < j) && (#[trigger] self.turned(false, a, b)) is Some
                        ==> !board.occupied_spec(x + a, y + b),
                decreases r - j,
            {
                assert(self.turned(false, i as int, j as int) == self.cells[(r - 1 - j) as int][i as int]);
                if self.cells[r - 1 - j][i].is_some() && board.occupied(x + i as i32, y + j as i32) {
                    return false;
                }
                j = j + 1;
            }
            i = i + 1;
        }
        true
    }

    /// Empty the grid and reset the orientation and step; the position stays.
    pub fn reset(&mut self)
        ensures
            forall|i: int, j: int| 0 <= i < 8 && 0 <= j < 8 ==> (#[trigger] final(self).cells[i][j]) is None,
            final(self).orientation == 0,
            final(self).state == 0,
            final(self).kind == old(self).kind,
            final(self).x == old(self).x,
            final(self).y == old(self).y,
            final(self).color == old(self).color,
            final(self).rot == old(self).rot,
            final(self).orientations == old(self).orientations,
    {
        let mut i: usize = 0;
        while i < BT_PIECE_WIDTH
            invariant
                0 <= i <= 8,
                forall|a: int, b: int| 0 <= a < i && 0 <= b < 8 ==> (#[trigger] self.cells[a][b]) is None,
                self.kind == old(self).kind,
                self.x == old(self).x,
                self.y == old(self).y,
                self.color == old(self).color,
                self.rot == old(self).rot,
                self.orientations == old(self).orientations,
            decreases 8 - i,
        {
            let mut j: usize = 0;
            while j < BT_PIECE_HEIGHT
                invariant
                    0 <= i < 8,
                    0 <= j <= 8,
                    forall|a: int, b: int| (0 <= a < i && 0 <= b < 8 || a == i && 0 <= b < j) ==> (#[trigger] self.cells[a][b]) is None,
                    self.kind == old(self).kind,
                    self.x == old(self).x,
                    self.y == old(self).y,
                    self.color == old(self).color,
                    self.rot == old(self).rot,
                    self.orientations == old(self).orientations,
                decreases 8 - j,
            {
                self.cells[i][j] = None;
                j = j + 1;
            }
            i = i + 1;
        }
        self.orientation = 0;
        self.state = 0;
    }
}

/// Orientation after one step forward, or back when `reverse`, in a cycle of `n`.
pub open spec fn next_orientation(o: int, n: int, reverse: bool) -> int {
    if reverse {
        (o - 1 + n) % n
    } else {
        (o + 1) % n
    }
}

/// The grid square `(i, j)` after the first `n` moves of `moves` (each move
/// `(to_col, to_row, from_col, from_row)` copies the source square to the
/// target and empties the source), starting from piece `p`'s grid.
pub open spec fn moved(p: &Piece, moves: Seq<(usize, usize, usize, usize)>, n: int, i: int, j: int) -> Option<Cell>
    decreases n,
{
    if n <= 0 {
        p.sq(i, j)
    } else {
        let m = moves[n - 1];
        if i == m.2 && j == m.3 {
            None
        } else if i == m.0 && j == m.1 {
            moved(p, moves, n - 1, m.2 as int, m.3 as int)
        } else {
            moved(p, moves, n - 1, i, j)
        }
    }
}

/// One of the board squares `checks` (relative to `(x, y)`) is taken.
pub open spec fn blocked(board: &Board, x: int, y: int, checks: Seq<(i32, i32)>) -> bool {
    exists|k: int| 0 <= k < checks.len() && #[trigger] board.occupied_spec(x + checks[k].0, y + checks[k].1)
}

/// The squares that must be free, and the moves, of the Wall's step into
/// state `s` (backward when `reverse`).
pub open spec fn wall_plan(s: int, reverse: bool) -> (Seq<(i32, i32)>, Seq<(usize, usize, usize, usize)>) {
    if s == 0 && !reverse {
        (seq![(0i32, 2i32), (3, 1)], seq![(0usize, 2usize, 1usize, 0usize), (3, 1, 2, 3)])
    } else if s == 0 {
        (seq![(0i32, 1i32), (3, 2)], seq![(0usize, 1usize, 1usize, 3usize), (3, 2, 2, 0)])
    } else if s == 1 && !reverse {
        (seq![(1i32, 3i32), (2, 0)], seq![(1usize, 3usize, 0usize, 1usize), (2, 0, 3, 2)])
    } else if s == 1 {
        (seq![(0i32, 2i32), (3, 1)], seq![(0usize, 2usize, 2usize, 3usize), (3, 1, 1, 0)])
    } else if s == 2 && !reverse {
        (seq![(2i32, 3i32), (1, 0)], seq![(2usize, 3usize, 0usize, 2usize), (1, 0, 3, 1)])
    } else if s == 2 {
        (seq![(2i32, 0i32), (1, 3)], seq![(2usize, 0usize, 0usize, 1usize), (1, 3, 3, 2)])
    } else if s == 3 && !reverse {
        (seq![(0i32, 1i32), (3, 2)], seq![(0usize, 1usize, 2usize, 0usize), (3, 2, 1, 3)])
    } else if s == 3 {
        (seq![(1i32, 0i32), (2, 3)], seq![(1usize, 0usize, 0usize, 2usize), (2, 3, 3, 1)])
    } else {
        (seq![], seq![])
    }
}

/// The squares that must be free, and the moves, of the Star's step from
/// state `s`: from 0 the arms swing to the corners, otherwise back.
pub open spec fn star_plan(s: int) -> (Seq<(i32, i32)>, Seq<(usize, usize, usize, usize)>) {
    if s == 0 {
        (
            seq![(0i32, 0i32), (2, 0), (0, 2), (2, 2)],
            seq![(0usize, 0usize, 1usize, 0usize), (2, 0, 2, 1), (0, 2, 0, 1), (2, 2, 1, 2)],
        )
    } else {
        (
            seq![(1i32, 0i32), (0, 1), (1, 2), (2, 1)],
            seq![(1usize, 0usize, 0usize, 0usize), (0, 1, 2, 0), (1, 2, 0, 2), (2, 1, 2, 2)],
        )
    }
}

/// The squares that must be free, and the moves, of the Weird Long's step
/// into state `s` (backward when `reverse`).
pub open spec fn weird_plan(s: int, reverse: bool) -> (Seq<(i32, i32)>, Seq<(usize, usize, usize, usize)>) {
    if s == 0 && !reverse {
        (
            seq![(1i32, 0i32), (1, 1), (2, 2), (2, 3)],
            seq![(1usize, 0usize, 2usize, 0usize), (1, 1, 2, 1), (2, 2, 1, 2), (2, 3, 1, 3)],
        )
    } else if s == 0 {
        (seq![(1i32, 0i32), (2, 3)], seq![(1usize, 0usize, 0usize, 0usize), (2, 3, 3, 3)])
    } else if s == 1 && !reverse {
        (seq![(0i32, 0i32), (3, 3)], seq![(0usize, 0usize, 1usize, 0usize), (3, 3, 2, 3)])
    } else if s == 1 {
        (seq![(0i32, 0i32), (3, 3)], seq![(0usize, 0usize, 0usize, 1usize), (3, 3, 3, 2)])
    } else if s == 2 && !reverse {
        (seq![(0i32, 1i32), (3, 2)], seq![(0usize, 1usize, 0usize, 0usize), (3, 2, 3, 3)])
    } else if s == 2 {
        (
            seq![(0i32, 1i32), (1, 1), (2, 2), (3, 2)],
            seq![(0usize, 1usize, 0usize, 2usize), (1, 1, 1, 2), (2, 2, 2, 1), (3, 2, 3, 1)],
        )
    } else if s == 3 && !reverse {
        (
            seq![(0i32, 2i32), (1, 2), (2, 1), (3, 1)],
            seq![(0usize, 2usize, 0usize, 1usize), (1, 2, 1, 1), (2, 1, 2, 2), (3, 1, 3, 2)],
        )
    } else if s == 3 {
        (seq![(3i32, 1i32), (0, 2)], seq![(3usize, 1usize, 3usize, 0usize), (0, 2, 0, 3)])
    } else if s == 4 && !reverse {
        (seq![(3i32, 0i32), (0, 3)], seq![(3usize, 0usize, 3usize, 1usize), (0, 3, 0, 2)])
    } else if s == 4 {
        (seq![(3i32, 0i32), (0, 3)], seq![(3usize, 0usize, 2usize, 0usize), (0, 3, 1, 3)])
    } else if s == 5 && !reverse {
        (seq![(2i32, 0i32), (1, 3)], seq![(2usize, 0usize, 3usize, 0usize), (1, 3, 0, 3)])
    } else if s == 5 {
        (
            seq![(2i32, 0i32), (2, 1), (1, 2), (1, 3)],
            seq![(2usize, 0usize, 1usize, 0usize), (2, 1, 1, 1), (1, 2, 2, 2), (1, 3, 2, 3)],
        )
    } else {
        (seq![], seq![])
    }
}

/// Every coordinate of a plan lies inside the 8x8 grid.
pub open spec fn plan_in_grid(checks: Seq<(i32, i32)>, moves: Seq<(usize, usize, usize, usize)>) -> bool {
    &&& forall|k: int| 0 <= k < checks.len() ==> 0 <= (#[trigger] checks[k]).0 < 8 && 0 <= checks[k].1 < 8
    &&& forall|k: int| 0 <= k < moves.len() ==> (#[trigger] moves[k]).0 < 8 && moves[k].1 < 8 && moves[k].2 < 8 && moves[k].3 < 8
}

fn wall_plan_exec(s: i32, reverse: bool) -> (r: (Vec<(i32, i32)>, Vec<(usize, usize, usize, usize)>))
    ensures
        r.0@ == wall_plan(s as int, reverse).0,
        r.1@ == wall_plan(s as int, reverse).1,
        plan_in_grid(r.0@, r.1@),
{
    let r = if s == 0 && !reverse {
        (vec![(0i32, 2i32), (3, 1)], vec![(0usize, 2usize, 1usize, 0usize), (3, 1, 2, 3)])
    } else if s == 0 {
        (vec![(0i32, 1i32), (3, 2)], vec![(0usize, 1usize, 1usize, 3usize), (3, 2, 2, 0)])
    } else if s == 1 && !reverse {
        (vec![(1i32, 3i32), (2, 0)], vec![(1usize, 3usize, 0usize, 1usize), (2, 0, 3, 2)])
    } else if s == 1 {
        (vec![(0i32, 2i32), (3, 1)], vec![(0usize, 2usize, 2usize, 3usize), (3, 1, 1, 0)])
    } else if s == 2 && !reverse {
        (vec![(2i32, 3i32), (1, 0)], vec![(2usize, 3usize, 0usize, 2usize), (1, 0, 3, 1)])
    } else if s == 2 {
        (vec![(2i32, 0i32), (1, 3)], vec![(2usize, 0usize, 0usize, 1usize), (1, 3, 3, 2)])
    } else if s == 3 && !reverse {
        (vec![(0i32, 1i32), (3, 2)], vec![(0usize, 1usize, 2usize, 0usize), (3, 2, 1, 3)])
    } else if s == 3 {
        (vec![(1i32, 0i32), (2, 3)], vec![(1usize, 0usize, 0usize, 2usize), (2, 3, 3, 1)])
    } else {
        (vec![], vec![])
    };
    assert(r.0@ =~= wall_plan(s as int, reverse).0);
    assert(r.1@ =~= wall_plan(s as int, reverse).1);
    r
}

fn star_plan_exec(s: i32) -> (r: (Vec<(i32, i32)>, Vec<(usize, usize, usize, usize)>))
    ensures
        r.0@ == star_plan(s as int).0,
        r.1@ == star_plan(s as int).1,
        plan_in_grid(r.0@, r.1@),
{
    let r = if s == 0 {
        (
            vec![(0i32, 0i32), (2, 0), (0, 2), (2, 2)],
            vec![(0usize, 0usize, 1usize, 0usize), (2, 0, 2, 1), (0, 2, 0, 1), (2, 2, 1, 2)],
        )
    } else {
        (
            vec![(1i32, 0i32), (0, 1), (1, 2), (2, 1)],
            vec![(1usize, 0usize, 0usize, 0usize), (0, 1, 2, 0), (1, 2, 0, 2), (2, 1, 2, 2)],
        )
    };
    assert(r.0@ =~= star_plan(s as int).0);
    assert(r.1@ =~= star_plan(s as int).1);
    r
}

fn weird_plan_exec(s: i32, reverse: bool) -> (r: (Vec<(i32, i32)>, Vec<(usize, usize, usize, usize)>))
    ensures
        r.0@ == weird_plan(s as int, reverse).0,
        r.1@ == weird_plan(s as int, reverse).1,
        plan_in_grid(r.0@, r.1@),
{
    let r = if s == 0 && !reverse {
        (
            vec![(1i32, 0i32), (1, 1), (2, 2), (2, 3)],
            vec![(1usize, 0usize, 2usize, 0usize), (1, 1, 2, 1), (2, 2, 1, 2), (2, 3, 1, 3)],
        )
    } else if s == 0 {
        (vec![(1i32, 0i32), (2, 3)], vec![(1usize, 0usize, 0usize, 0usize), (2, 3, 3, 3)])
    } else if s == 1 && !reverse {
        (vec![(0i32, 0i32), (3, 3)], vec![(0usize, 0usize, 1usize, 0usize), (3, 3, 2, 3)])
    } else if s == 1 {
        (vec![(0i32, 0i32), (3, 3)], vec![(0usize, 0usize, 0usize, 1usize), (3, 3, 3, 2)])
    } else if s == 2 && !reverse {
        (vec![(0i32, 1i32), (3, 2)], vec![(0usize, 1usize, 0usize, 0usize), (3, 2, 3, 3)])
    } else if s == 2 {
        (
            vec![(0i32, 1i32), (1, 1), (2, 2), (3, 2)],
            vec![(0usize, 1usize, 0usize, 2usize), (1, 1, 1, 2), (2, 2, 2, 1), (3, 2, 3, 1)],
        )
    } else if s == 3 && !reverse {
        (
            vec![(0i32, 2i32), (1, 2), (2, 1), (3, 1)],
            vec![(0usize, 2usize, 0usize, 1usize), (1, 2, 1, 1), (2, 1, 2, 2), (3, 1, 3, 2)],
        )
    } else if s == 3 {
        (vec![(3i32, 1i32), (0, 2)], vec![(3usize, 1usize, 3usize, 0usize), (0, 2, 0, 3)])
    } else if s == 4 && !reverse {
        (vec![(3i32, 0i32), (0, 3)], vec![(3usize, 0usize, 3usize, 1usize), (0, 3, 0, 2)])
    } else if s == 4 {
        (vec![(3i32, 0i32), (0, 3)], vec![(3usize, 0usize, 2usize, 0usize), (0, 3, 1, 3)])
    } else if s == 5 && !reverse {
        (vec![(2i32, 0i32), (1, 3)], vec![(2usize, 0usize, 3usize, 0usize), (1, 3, 0, 3)])
    } else if s == 5 {
        (
            vec![(2i32, 0i32), (2, 1), (1, 2), (1, 3)],
            vec![(2usize, 0usize, 1usize, 0usize), (2, 1, 1, 1), (1, 2, 2, 2), (1, 3, 2, 3)],
        )
    } else {
        (vec![], vec![])
    };
    assert(r.0@ =~= weird_plan(s as int, reverse).0);
    assert(r.1@ =~= weird_plan(s as int, reverse).1);
    r
}

impl Piece {
    /// Carry out a hand-made rotation step: if every square of `checks` is free
    /// (relative to the piece's position), apply `moves` to the grid and return
    /// true; otherwise change nothing and return false.
    fn run_plan(&mut self, board: &Board, checks: &Vec<(i32, i32)>, moves: &Vec<(usize, usize, usize, usize)>) -> (r: bool)
        requires
            board.wf(),
            old(self).x <= i32::MAX - 8,
            old(self).y <= i32::MAX - 8,
            plan_in_grid(checks@, moves@),
        ensures
            final(self).same_but_cells(old(self)),
            r == !blocked(board, old(self).x as int, old(self).y as int, checks@),
            r ==> forall|i: int, j: int| 0 <= i < 8 && 0 <= j < 8 ==> #[trigger] final(self).cells[i][j] == moved(
                old(self),
                moves@,
                moves@.len() as int,
                i,
                j,
            ),
            !r ==> final(self).cells == old(self).cells,
    {
        let mut k: usize = 0;
        while k < checks.len()
            invariant
                board.wf(),
                self.x <= i32::MAX - 8,
                self.y <= i32::MAX - 8,
                plan_in_grid(checks@, moves@),
                0 <= k <= checks.len(),
                forall|k2: int| 0 <= k2 < k ==> !#[trigger] board.occupied_spec(self.x + checks@[k2].0, self.y + checks@[k2].1),
            decreases checks.len() - k,
        {
            let (cx, cy) = checks[k];
            if board.occupied(self.x + cx, self.y + cy) {
                return false;
            }
            k = k + 1;
        }
        let mut n: usize = 0;
        while n < moves.len()
            invariant
                self.same_but_cells(old(self)),
                plan_in_grid(checks@, moves@),
                0 <= n <= moves.len(),
                forall|i: int, j: int| 0 <= i < 8 && 0 <= j < 8 ==> #[trigger] self.cells[i][j] == moved(old(self), moves@, n as int, i, j),
            decreases moves.len() - n,
        {
            let (ti, tj, fi, fj) = moves[n];
            let v = self.cells[fi][fj];
            self.cells[ti][tj] = v;
            self.cells[fi][fj] = None;
            n = n + 1;
        }
        true
    }
}

impl Piece {
    /// The piece may be turned: its bookkeeping is in range, and the position
    /// and step arithmetic stay within `i32`.
    pub open spec fn turnable(&self) -> bool {
        &&& self.wf()
        &&& self.x <= i32::MAX - 8
        &&& self.y <= i32::MAX - 8
        &&& self.orientations <= 0x4000_0000
        &&& i32::MIN + 1 <= self.state
        &&& self.state + self.orientations <= i32::MAX
    }

    /// The step a Wall or Weird Long turn moves into.
    pub open spec fn next_state(&self, reverse: bool) -> int {
        if reverse {
            rem(self.state - 1 + self.orientations, self.orientations as int)
        } else {
            rem(self.state + 1, self.orientations as int)
        }
    }

    /// This piece is piece `o` after trying a hand-made step with `plan` on
    /// `board`, which (when it fits) moves into step `ns` and, when `orient`,
    /// advances the orientation; `r` tells whether it fit.
    pub open spec fn stepped(
        &self,
        o: &Piece,
        board: &Board,
        plan: (Seq<(i32, i32)>, Seq<(usize, usize, usize, usize)>),
        ns: int,
        orient: bool,
        reverse: bool,
        r: bool,
    ) -> bool {
        &&& r == !blocked(board, o.x as int, o.y as int, plan.0)
        &&& r ==> {
            &&& forall|i: int, j: int| 0 <= i < 8 && 0 <= j < 8 ==> #[trigger] self.cells[i][j] == moved(o, plan.1, plan.1.len() as int, i, j)
            &&& self.state == ns
            &&& self.orientation == if orient { next_orientation(o.orientation as int, o.orientations as int, reverse) } else { o.orientation as int }
        }
        &&& !r ==> self.cells == o.cells && self.state == o.state && self.orientation == o.orientation
    }

    /// This piece is piece `o` after trying a quarter turn on `board`; `r`
    /// tells whether it turned.
    pub open spec fn quarter_turned(&self, o: &Piece, board: &Board, reverse: bool, r: bool) -> bool {
        &&& self.state == o.state
        &&& r == (o.rot != 0 && o.turn_fits(board, reverse, o.x as int, o.y as int))
        &&& r ==> {
            &&& forall|i: int, j: int| 0 <= i < 8 && 0 <= j < 8 ==> #[trigger] self.cells[i][j] == o.turned(reverse, i, j)
            &&& self.orientation == next_orientation(o.orientation as int, o.orientations as int, reverse)
        }
        &&& !r ==> self.cells == o.cells && self.orientation == o.orientation
    }

    /// This piece is piece `o` after `rotate(board, reverse)` returned `r`.
    pub open spec fn rotated_from(&self, o: &Piece, board: &Board, reverse: bool, r: bool) -> bool {
        &&& self.kind == o.kind
        &&& self.x == o.x
        &&& self.y == o.y
        &&& self.color == o.color
        &&& self.rot == o.rot
        &&& self.orientations == o.orientations
        &&& match o.kind {
            PieceKind::Wall => self.stepped(o, board, wall_plan(o.next_state(reverse), reverse), o.next_state(reverse), true, reverse, r),
            PieceKind::Star => self.stepped(o, board, star_plan(o.state as int), rem(o.state + 1, 2), false, reverse, r),
            PieceKind::WeirdLong => self.stepped(o, board, weird_plan(o.next_state(reverse), reverse), o.next_state(reverse), true, reverse, r),
            _ => self.quarter_turned(o, board, reverse, r),
        }
    }

    fn advance_orientation(&mut self, reverse: bool)
        requires
            old(self).wf(),
            old(self).orientations <= 0x4000_0000,
        ensures
            final(self).orientation == next_orientation(old(self).orientation as int, old(self).orientations as int, reverse),
            final(self).wf(),
            final(self).kind == old(self).kind,
            final(self).x == old(self).x,
            final(self).y == old(self).y,
            final(self).color == old(self).color,
            final(self).rot == old(self).rot,
            final(self).orientations == old(self).orientations,
            final(self).state == old(self).state,
            final(self).cells == old(self).cells,
    {
        if reverse {
            self.orientation = (self.orientation - 1 + self.orientations) % self.orientations;
        } else {
            self.orientation = (self.orientation + 1) % self.orientations;
        }
    }

    /// A quarter turn of the `rot` by `rot` corner, if the turned squares are free.
    fn rotate_generic(&mut self, board: &Board, reverse: bool) -> (r: bool)
        requires
            board.wf(),
            old(self).turnable(),
            old(self).kind != PieceKind::Wall,
            old(self).kind != PieceKind::Star,
            old(self).kind != PieceKind::WeirdLong,
        ensures
            final(self).rotated_from(old(self), board, reverse, r),
            final(self).turnable(),
    {
        if self.rot == 0 {
            return false;
        }
        let r = self.rot;
        let mut rot_map: [[Option<Cell>; BT_PIECE_HEIGHT]; BT_PIECE_WIDTH] = [[None; BT_PIECE_HEIGHT]; BT_PIECE_WIDTH];
        let mut i: usize = 0;
        while i < r
            invariant
                board.wf(),
                *self == *old(self),
                self.kind != PieceKind::Wall && self.kind != PieceKind::Star && self.kind != PieceKind::WeirdLong,
                self.turnable(),
                r == self.rot,
                1 <= r <= 8,
                0 <= i <= r,
                forall|a: int, b: int| 0 <= a < i && 0 <= b < r ==> #[trigger] rot_map[a][b] == self.turned(reverse, a, b),
                forall|a: int, b: int| 0 <= a < i && 0 <= b < r && (#[trigger] self.turned(reverse, a, b)) is Some
                    ==> !board.occupied_spec(self.x + a, self.y + b),
            decreases r - i,
        {
            let mut j: usize = 0;
            while j < r
                invariant
                    board.wf(),
                    *self == *old(self),
                    self.kind != PieceKind::Wall && self.kind != PieceKind::Star && self.kind != PieceKind::WeirdLong,
                    self.turnable(),
                    r == self.rot,
                    1 <= r <= 8,
                    0 <= i < r,
                    0 <= j <= r,
                    forall|a: int, b: int| (0 <= a < i && 0 <= b < r || a == i && 0 <= b < j) ==> #[trigger] rot_map[a][b] == self.turned(reverse, a, b),
                    forall|a: int, b: int| (0 <= a < i && 0 <= b < r || a == i && 0 <= b < j) && (#[trigger] self.turned(reverse, a, b)) is Some
                        ==> !board.occupied_spec(self.x + a, self.y + b),
                decreases r - j,
            {
                let v = if reverse {
                    self.cells[j][r - 1 - i]
                } else {
                    self.cells[r - 1 - j][i]
                };
                rot_map[i][j] = v;
                assert(v == self.turned(reverse, i as int, j as int));
                if v.is_some() && board.occupied(self.x + i as i32, self.y + j as i32) {
                    assert(!self.turn_fits(board, reverse, self.x as int, self.y as int));
                    return false;
                }
                j = j + 1;
            }
            i = i + 1;
        }
        let ghost before = *self;
        let mut i: usize = 0;
        while i < r
            invariant
                self.same_but_cells(&before),
                before.turnable(),
                r == before.rot,
                1 <= r <= 8,
                0 <= i <= r,
                forall|a: int, b: int| 0 <= a < r && 0 <= b < r ==> #[trigger] rot_map[a][b] == before.turned(reverse, a, b),
                forall|a: int, b: int| 0 <= a < 8 && 0 <= b < 8 ==> #[trigger] self.cells[a][b] == if a < i && b < r {
                    before.turned(reverse, a, b)
                } else {
                    before.cells[a][b]
                },
            decreases r - i,
        {
            let mut j: usize = 0;
            while j < r
                invariant
                    self.same_but_cells(&before),
                    before.turnable(),
                    r == before.rot,
                    1 <= r <= 8,
                    0 <= i < r,
                    0 <= j <= r,
                    forall|a: int, b: int| 0 <= a < r && 0 <= b < r ==> #[trigger] rot_map[a][b] == before.turned(reverse, a, b),
                    forall|a: int, b: int| 0 <= a < 8 && 0 <= b < 8 ==> #[trigger] self.cells[a][b] == if (a < i && b < r) || (a == i && b < j) {
                        before.turned(reverse, a, b)
                    } else {
                        before.cells[a][b]
                    },
                decreases r - j,
            {
                self.cells[i][j] = rot_map[i][j];
                j = j + 1;
            }
            i = i + 1;
        }
        self.advance_orientation(reverse);
        true
    }

    /// A Wall, Star or Weird Long step with `plan`.
    fn rotate_step(&mut self, board: &Board, checks: &Vec<(i32, i32)>, moves: &Vec<(usize, usize, usize, usize)>, ns: i32, orient: bool, reverse: bool) -> (r: bool)
        requires
            board.wf(),
            old(self).turnable(),
            plan_in_grid(checks@, moves@),
            i32::MIN + 1 <= ns,
            ns + old(self).orientations <= i32::MAX,
        ensures
            final(self).stepped(old(self), board, (checks@, moves@), ns as int, orient, reverse, r),
            final(self).kind == old(self).kind,
            final(self).x == old(self).x,
            final(self).y == old(self).y,
            final(self).color == old(self).color,
            final(self).rot == old(self).rot,
            final(self).orientations == old(self).orientations,
            final(self).turnable(),
    {
        if !self.run_plan(board, checks, moves) {
            return false;
        }
        self.state = ns;
        if orient {
            self.advance_orientation(reverse);
        }
        true
    }

    fn rotate_wall(&mut self, board: &Board, reverse: bool) -> (r: bool)
        requires
            board.wf(),
            old(self).turnable(),
            old(self).kind == PieceKind::Wall,
        ensures
            final(self).rotated_from(old(self), board, reverse, r),
            final(self).turnable(),
    {
        let ns = if reverse {
            (self.state - 1 + self.orientations) % self.orientations
        } else {
            (self.state + 1) % self.orientations
        };
        let (checks, moves) = wall_plan_exec(ns, reverse);
        self.rotate_step(board, &checks, &moves, ns, true, reverse)
    }

    fn rotate_star(&mut self, board: &Board) -> (r: bool)
        requires
            board.wf(),
            old(self).turnable(),
            old(self).kind == PieceKind::Star,
        ensures
            final(self).rotated_from(old(self), board, false, r),
            final(self).turnable(),
    {
        let (checks, moves) = star_plan_exec(self.state);
        let ns = (self.state + 1) % 2;
        self.rotate_step(board, &checks, &moves, ns, false, false)
    }
}

impl Piece {
    fn rotate_weirding(&mut self, board: &Board, reverse: bool) -> (r: bool)
        requires
            board.wf(),
            old(self).turnable(),
            old(self).kind == PieceKind::WeirdLong,
        ensures
            final(self).rotated_from(old(self), board, reverse, r),
            final(self).turnable(),
    {
        let ns = if reverse {
            (self.state - 1 + self.orientations) % self.orientations
        } else {
            (self.state + 1) % self.orientations
        };
        let (checks, moves) = weird_plan_exec(ns, reverse);
        self.rotate_step(board, &checks, &moves, ns, true, reverse)
    }

    /// Turn the piece clockwise (counter-clockwise when `reverse`) if the turned
    /// squares are free; returns whether it turned. Most kinds turn their corner
    /// a quarter; Wall and Weird Long step through their hand-made states; Star
    /// toggles its arms (ignoring the direction, and leaving its orientation).
    pub fn rotate(&mut self, board: &Board, reverse: bool) -> (r: bool)
        requires
            board.wf(),
            old(self).turnable(),
        ensures
            final(self).rotated_from(old(self), board, reverse, r),
            final(self).turnable(),
    {
        match self.kind {
            PieceKind::Wall => self.rotate_wall(board, reverse),
            PieceKind::Star => self.rotate_star(board),
            PieceKind::WeirdLong => self.rotate_weirding(board, reverse),
            _ => self.rotate_generic(board, reverse),
        }
    }
}

impl Piece {
    /// The square of board `o` at `(a, b)` once this piece's boxes are written
    /// into it (boxes falling off the board are dropped).
    pub open spec fn stamp_at(&self, o: &Board, a: int, b: int) -> Option<Cell> {
        let i = a - self.x;
        let j = b - self.y;
        if 0 <= i < 8 && 0 <= j < 8 && self.cells[i][j] is Some && o.in_bounds(a, b) {
            self.cells[i][j]
        } else {
            o.at(a, b)
        }
    }

    /// Board index `k` is a square that this piece's boxes land on, among the
    /// grid columns before `ci` and, in column `ci`, the rows before `cj`.
    pub open spec fn stamps_index_before(&self, o: &Board, k: int, ci: int, cj: int) -> bool {
        exists|i: int, j: int|
            0 <= i < 8 && 0 <= j < 8 && (i < ci || (i == ci && j < cj)) && (#[trigger] self.cells[i][j]) is Some && o.in_bounds(
                self.x + i,
                self.y + j,
            ) && k == (self.y + j) * o.width + (self.x + i)
    }

    /// Board `mid` is board `o` with this piece's boxes written in, and the
    /// squares they land on recorded as freshly filled.
    pub open spec fn stamped_into(&self, mid: &Board, o: &Board) -> bool {
        &&& mid.wf()
        &&& mid.width == o.width
        &&& mid.height == o.height
        &&& mid.active == o.active
        &&& mid.upside == o.upside
        &&& mid.computer == o.computer
        &&& mid.idiot == o.idiot
        &&& mid.reason == o.reason
        &&& forall|a: int, b: int| #[trigger] mid.at(a, b) == self.stamp_at(o, a, b)
        &&& forall|k: int| #[trigger] mid.is_fresh(Some(k)) <==> (o.is_fresh(Some(k)) || self.stamps_index_before(o, k, 8, 0))
    }

    /// Lock the piece into `board`: write its boxes in (those off the board are
    /// dropped), then run the bad-move check for its frame and forget the fresh
    /// squares.
    pub fn land(&mut self, board: &mut Board)
        requires
            old(board).wf(),
            old(self).x <= i32::MAX - 7,
            old(self).y <= i32::MAX - 7,
        ensures
            *final(self) == *old(self),
            final(board).wf(),
            final(board).width == old(board).width,
            final(board).height == old(board).height,
            final(board).active == old(board).active,
            final(board).upside == old(board).upside,
            final(board).computer == old(board).computer,
            final(board).fresh().len() == 0,
            exists|mid: Board|
                #[trigger] old(self).stamped_into(&mid, old(board)) && final(board).grid() == mid.grid() && final(board).idiot == (
                mid.idiot || mid.bad_move_at(old(self).x as int, old(self).y as int)) && final(board).reason == if mid.bad_move_at(
                    old(self).x as int,
                    old(self).y as int,
                ) {
                    crate::constants::BT_BAD_MOVE
                } else {
                    mid.reason
                },
    {
        let ghost ob = *board;
        let mut i: usize = 0;
        while i < BT_PIECE_WIDTH
            invariant
                board.wf(),
                ob.wf(),
                board.width == ob.width,
                board.height == ob.height,
                board.active == ob.active,
                board.upside == ob.upside,
                board.computer == ob.computer,
                board.idiot == ob.idiot,
                board.reason == ob.reason,
                self.x <= i32::MAX - 7,
                self.y <= i32::MAX - 7,
                0 <= i <= 8,
                forall|a: int, b: int| #[trigger] board.at(a, b) == if a - self.x < i { self.stamp_at(&ob, a, b) } else { ob.at(a, b) },
                forall|k: int| #[trigger] board.is_fresh(Some(k)) <==> (ob.is_fresh(Some(k)) || self.stamps_index_before(&ob, k, i as int, 0)),
            decreases 8 - i,
        {
            let mut j: usize = 0;
            while j < BT_PIECE_HEIGHT
                invariant
                    board.wf(),
                    ob.wf(),
                    board.width == ob.width,
                    board.height == ob.height,
                    board.active == ob.active,
                    board.upside == ob.upside,
                    board.computer == ob.computer,
                    board.idiot == ob.idiot,
                    board.reason == ob.reason,
                    self.x <= i32::MAX - 7,
                    self.y <= i32::MAX - 7,
                    0 <= i < 8,
                    0 <= j <= 8,
                    forall|a: int, b: int| #[trigger] board.at(a, b) == if a - self.x < i || (a - self.x == i && b - self.y < j) {
                        self.stamp_at(&ob, a, b)
                    } else {
                        ob.at(a, b)
                    },
                    forall|k: int| #[trigger] board.is_fresh(Some(k)) <==> (ob.is_fresh(Some(k)) || self.stamps_index_before(&ob, k, i as int, j as int)),
                decreases 8 - j,
            {
                if let Some(cell) = self.cells[i][j] {
                    let ghost before = *board;
                    board.fill(self.x + i as i32, self.y + j as i32, cell);
                    proof {
                        if before.in_bounds(self.x + i, self.y + j) {
                            crate::board::lemma_index(before.width as int, before.height as int, self.x + i, self.y + j);
                        }
                        lemma_fresh_after_fill(&before, board, (self.y + j) * before.width + (self.x + i), before.in_bounds(self.x + i, self.y + j));
                        assert forall|k: int| #[trigger] board.is_fresh(Some(k)) <==> (ob.is_fresh(Some(k)) || self.stamps_index_before(&ob, k, i as int, j + 1)) by {
                            if self.stamps_index_before(&ob, k, i as int, j + 1) && !self.stamps_index_before(&ob, k, i as int, j as int) {
                                let (i2, j2) = choose|i2: int, j2: int|
                                    0 <= i2 < 8 && 0 <= j2 < 8 && (i2 < i || (i2 == i && j2 < j + 1)) && (#[trigger] self.cells[i2][j2]) is Some && ob.in_bounds(
                                        self.x + i2,
                                        self.y + j2,
                                    ) && k == (self.y + j2) * ob.width + (self.x + i2);
                                assert(i2 == i && j2 == j);
                            }
                            if before.in_bounds(self.x + i, self.y + j) && k == (self.y + j) * before.width + (self.x + i) {
                                assert(self.cells[i as int][j as int] is Some);
                            }
                        }
                    }
                } else {
                    proof {
                        assert forall|k: int| #[trigger] board.is_fresh(Some(k)) <==> (ob.is_fresh(Some(k)) || self.stamps_index_before(&ob, k, i as int, j + 1)) by {
                            if self.stamps_index_before(&ob, k, i as int, j + 1) && !self.stamps_index_before(&ob, k, i as int, j as int) {
                                let (i2, j2) = choose|i2: int, j2: int|
                                    0 <= i2 < 8 && 0 <= j2 < 8 && (i2 < i || (i2 == i && j2 < j + 1)) && (#[trigger] self.cells[i2][j2]) is Some && ob.in_bounds(
                                        self.x + i2,
                                        self.y + j2,
                                    ) && k == (self.y + j2) * ob.width + (self.x + i2);
                                assert(i2 == i && j2 == j);
                            }
                        }
                    }
                }
                j = j + 1;
            }
            proof {
                assert forall|k: int| #[trigger] board.is_fresh(Some(k)) <==> (ob.is_fresh(Some(k)) || self.stamps_index_before(&ob, k, i + 1, 0)) by {
                    if self.stamps_index_before(&ob, k, i + 1, 0) {
                        let (i2, j2) = choose|i2: int, j2: int|
                            0 <= i2 < 8 && 0 <= j2 < 8 && (i2 < i + 1 || (i2 == i + 1 && j2 < 0)) && (#[trigger] self.cells[i2][j2]) is Some && ob.in_bounds(
                                self.x + i2,
                                self.y + j2,
                            ) && k == (self.y + j2) * ob.width + (self.x + i2);
                        assert(self.stamps_index_before(&ob, k, i as int, 8));
                    }
                    if self.stamps_index_before(&ob, k, i as int, 8) {
                        let (i2, j2) = choose|i2: int, j2: int|
                            0 <= i2 < 8 && 0 <= j2 < 8 && (i2 < i || (i2 == i && j2 < 8)) && (#[trigger] self.cells[i2][j2]) is Some && ob.in_bounds(
                                self.x + i2,
                                self.y + j2,
                            ) && k == (self.y + j2) * ob.width + (self.x + i2);
                        assert(self.stamps_index_before(&ob, k, i + 1, 0));
                    }
                }
            }
            i = i + 1;
        }
        let ghost mid = *board;
        proof {
            assert forall|a: int, b: int| #[trigger] mid.at(a, b) == self.stamp_at(&ob, a, b) by {
                if !(a - self.x < 8) {
                    assert(mid.at(a, b) == ob.at(a, b));
                }
            }
            assert(self.stamped_into(&mid, &ob));
        }
        board.landed(self.x, self.y);
    }
}

/// Filling one square adds its index (when on the board) to the fresh squares.
proof fn lemma_fresh_after_fill(before: &Board, after: &Board, idx: int, on_board: bool)
    requires
        after.fresh() == if on_board { before.fresh().push(idx as usize) } else { before.fresh() },
        on_board ==> 0 <= idx <= usize::MAX,
    ensures
        forall|k: int| #[trigger] after.is_fresh(Some(k)) <==> (before.is_fresh(Some(k)) || (on_board && k == idx)),
{
    assert forall|k: int| #[trigger] after.is_fresh(Some(k)) <==> (before.is_fresh(Some(k)) || (on_board && k == idx)) by {
        if on_board {
            if after.is_fresh(Some(k)) {
                let n = choose|n: int| 0 <= n < after.fresh().len() && Some(k) == Some(after.fresh()[n] as int);
                if n < before.fresh().len() {
                    assert(before.fresh()[n] == after.fresh()[n]);
                }
            }
            if before.is_fresh(Some(k)) {
                let n = choose|n: int| 0 <= n < before.fresh().len() && Some(k) == Some(before.fresh()[n] as int);
                assert(after.fresh()[n] == before.fresh()[n]);
            }
            if k == idx {
                assert(after.fresh()[before.fresh().len() as int] == idx as usize);
            }
        }
    }
}

/// A quarter turn back undoes a quarter turn: the grid and the orientation
/// come back.
pub proof fn lemma_quarter_turn_undone(p0: Piece, p1: Piece, p2: Piece, b1: Board, b2: Board)
    requires
        p0.wf(),
        p1.quarter_turned(&p0, &b1, false, true),
        p2.quarter_turned(&p1, &b2, true, true),
        p1.rot == p0.rot,
        p1.orientations == p0.orientations,
    ensures
        forall|i: int, j: int| 0 <= i < 8 && 0 <= j < 8 ==> #[trigger] p2.cells[i][j] == p0.cells[i][j],
        p2.orientation == p0.orientation,
{
    let r = p0.rot as int;
    assert forall|i: int, j: int| 0 <= i < 8 && 0 <= j < 8 implies #[trigger] p2.cells[i][j] == p0.cells[i][j] by {
        assert(p2.cells[i][j] == p1.turned(true, i, j));
        if i < r && j < r {
            assert(p1.cells[j][r - 1 - i] == p0.turned(false, j, r - 1 - i));
        } else {
            assert(p1.cells[i][j] == p0.turned(false, i, j));
        }
    }
    let n = p0.orientations as int;
    let o = p0.orientation as int;
    if o + 1 < n {
        assert((o + 1) % n == o + 1) by {
            vstd::arithmetic::div_mod::lemma_small_mod((o + 1) as nat, n as nat);
        }
        assert((o + 1 - 1 + n) % n == o) by {
            vstd::arithmetic::div_mod::lemma_mod_add_multiples_vanish(o, n);
            vstd::arithmetic::div_mod::lemma_small_mod(o as nat, n as nat);
        }
    } else {
        assert((o + 1) % n == 0) by {
            vstd::arithmetic::div_mod::lemma_mod_self_0(n);
        }
        assert((0 - 1 + n) % n == o) by {
            vstd::arithmetic::div_mod::lemma_small_mod((n - 1) as nat, n as nat);
        }
    }
}

/// A turn of an ordinary piece (not Wall, Star or Weird Long) that sits on
/// free squares and turns successfully can always be turned back: the
/// reverse turn on the same board succeeds and gives the grid and the
/// orientation back.
pub proof fn lemma_turn_back_succeeds(p0: Piece, p1: Piece, p2: Piece, board: Board, r2: bool)
    requires
        p0.wf(),
        p0.kind != PieceKind::Wall && p0.kind != PieceKind::Star && p0.kind != PieceKind::WeirdLong,
        p0.fits(&board, p0.x as int, p0.y as int),
        p1.rotated_from(&p0, &board, false, true),
        p2.rotated_from(&p1, &board, true, r2),
    ensures
        r2,
        forall|i: int, j: int| 0 <= i < 8 && 0 <= j < 8 ==> #[trigger] p2.cells[i][j] == p0.cells[i][j],
        p2.orientation == p0.orientation,
{
    let r = p0.rot as int;
    assert(p1.quarter_turned(&p0, &board, false, true));
    assert(p1.kind == p0.kind);
    assert(p2.quarter_turned(&p1, &board, true, r2));
    assert(p1.turn_fits(&board, true, p1.x as int, p1.y as int)) by {
        assert forall|i: int, j: int|
            0 <= i < p1.rot && 0 <= j < p1.rot && (#[trigger] p1.turned(true, i, j)) is Some implies !board.occupied_spec(
            p1.x + i,
            p1.y + j,
        ) by {
            assert(p1.cells[j][r - 1 - i] == p0.turned(false, j, r - 1 - i));
            assert(p0.sq(i, j) is Some);
        }
    }
    assert(r2);
    lemma_quarter_turn_undone(p0, p1, p2, board, board);
}

/// Four quarter turns give the grid back.
pub proof fn lemma_four_quarter_turns(p0: Piece, p1: Piece, p2: Piece, p3: Piece, p4: Piece, b1: Board, b2: Board, b3: Board, b4: Board)
    requires
        p0.wf(),
        p1.quarter_turned(&p0, &b1, false, true),
        p2.quarter_turned(&p1, &b2, false, true),
        p3.quarter_turned(&p2, &b3, false, true),
        p4.quarter_turned(&p3, &b4, false, true),
        p1.rot == p0.rot,
        p2.rot == p0.rot,
        p3.rot == p0.rot,
    ensures
        forall|i: int, j: int| 0 <= i < 8 && 0 <= j < 8 ==> #[trigger] p4.cells[i][j] == p0.cells[i][j],
{
    let r = p0.rot as int;
    assert forall|i: int, j: int| 0 <= i < 8 && 0 <= j < 8 implies #[trigger] p4.cells[i][j] == p0.cells[i][j] by {
        if i < r && j < r {
            assert(p4.cells[i][j] == p3.cells[r - 1 - j][i]);
            assert(p3.cells[r - 1 - j][i] == p2.cells[r - 1 - i][r - 1 - j]);
            assert(p2.cells[r - 1 - i][r - 1 - j] == p1.cells[j][r - 1 - i]);
            assert(p1.cells[j][r - 1 - i] == p0.cells[i][j]);
        } else {
            assert(p4.cells[i][j] == p3.cells[i][j]);
            assert(p3.cells[i][j] == p2.cells[i][j]);
            assert(p2.cells[i][j] == p1.cells[i][j]);
            assert(p1.cells[i][j] == p0.cells[i][j]);
        }
    }
}

/// The squares a step's moves write to were empty.
pub open spec fn targets_empty(p: &Piece, moves: Seq<(usize, usize, usize, usize)>) -> bool {
    forall|k: int| 0 <= k < moves.len() ==> (#[trigger] p.sq(moves[k].0 as int, moves[k].1 as int)) is None
}

/// Undoing a step: applying `back` after `fwd` gives `p`'s square at `(i, j)`
/// back, when `back` moves each box of `fwd` back from target to source.
#[verifier::spinoff_prover]
#[verifier::rlimit(40)]
proof fn lemma_moves_undone(p0: &Piece, p1: &Piece, p2: &Piece, fwd: Seq<(usize, usize, usize, usize)>, back: Seq<(usize, usize, usize, usize)>)
    requires
        fwd.len() == back.len(),
        1 <= fwd.len() <= 4,
        forall|k: int| 0 <= k < fwd.len() ==> #[trigger] back[k] == (fwd[k].2, fwd[k].3, fwd[k].0, fwd[k].1),
        forall|k: int| 0 <= k < fwd.len() ==> (#[trigger] fwd[k]).0 < 8 && fwd[k].1 < 8 && fwd[k].2 < 8 && fwd[k].3 < 8,
        forall|k: int, l: int| 0 <= k < fwd.len() && 0 <= l < fwd.len() ==> !(#[trigger] fwd[k].0 == #[trigger] fwd[l].2 && fwd[k].1 == fwd[l].3),
        forall|k: int, l: int| 0 <= k < l < fwd.len() ==> !(#[trigger] fwd[k].0 == #[trigger] fwd[l].0 && fwd[k].1 == fwd[l].1),
        forall|k: int, l: int| 0 <= k < l < fwd.len() ==> !(#[trigger] fwd[k].2 == #[trigger] fwd[l].2 && fwd[k].3 == fwd[l].3),
        targets_empty(p0, fwd),
        forall|i: int, j: int| 0 <= i < 8 && 0 <= j < 8 ==> #[trigger] p1.cells[i][j] == moved(p0, fwd, fwd.len() as int, i, j),
        forall|i: int, j: int| 0 <= i < 8 && 0 <= j < 8 ==> #[trigger] p2.cells[i][j] == moved(p1, back, back.len() as int, i, j),
    ensures
        forall|i: int, j: int| 0 <= i < 8 && 0 <= j < 8 ==> #[trigger] p2.cells[i][j] == p0.cells[i][j],
{
    reveal_with_fuel(moved, 5);
    assert forall|i: int, j: int| 0 <= i < 8 && 0 <= j < 8 implies #[trigger] p2.cells[i][j] == p0.cells[i][j] by {
        assert forall|k: int| 0 <= k < fwd.len() implies #[trigger] p1.sq(fwd[k].0 as int, fwd[k].1 as int) == p0.sq(fwd[k].2 as int, fwd[k].3 as int) by {
            assert(p1.cells[fwd[k].0 as int][fwd[k].1 as int] == moved(p0, fwd, fwd.len() as int, fwd[k].0 as int, fwd[k].1 as int));
        }
        assert forall|k: int| 0 <= k < fwd.len() implies #[trigger] p1.sq(fwd[k].2 as int, fwd[k].3 as int) is None by {
            assert(p1.cells[fwd[k].2 as int][fwd[k].3 as int] == moved(p0, fwd, fwd.len() as int, fwd[k].2 as int, fwd[k].3 as int));
        }
        assert(p1.cells[i][j] == moved(p0, fwd, fwd.len() as int, i, j));
    }
}

/// A Wall step back undoes a Wall step forward (from any of its four states),
/// when the squares the forward step moved boxes onto were empty.
pub proof fn lemma_wall_step_undone(p0: Piece, p1: Piece, p2: Piece, b1: Board, b2: Board)
    requires
        p0.kind == PieceKind::Wall,
        p0.orientations == 4,
        0 <= p0.state < 4,
        p1.rotated_from(&p0, &b1, false, true),
        p2.rotated_from(&p1, &b2, true, true),
        targets_empty(&p0, wall_plan(p0.next_state(false), false).1),
    ensures
        forall|i: int, j: int| 0 <= i < 8 && 0 <= j < 8 ==> #[trigger] p2.cells[i][j] == p0.cells[i][j],
        p2.state == p0.state,
{
    let s = p0.state as int;
    let ns = p0.next_state(false);
    assert(p1.state == ns);
    assert(p1.next_state(true) == s);
    let fwd = wall_plan(ns, false).1;
    let back = wall_plan(s, true).1;
    assert(forall|k: int| 0 <= k < fwd.len() ==> #[trigger] back[k] == (fwd[k].2, fwd[k].3, fwd[k].0, fwd[k].1));
    lemma_moves_undone(&p0, &p1, &p2, fwd, back);
}

/// A Weird Long step back undoes a Weird Long step forward (from any of its
/// six states), when the squares the forward step moved boxes onto were empty.
pub proof fn lemma_weird_step_undone(p0: Piece, p1: Piece, p2: Piece, b1: Board, b2: Board)
    requires
        p0.kind == PieceKind::WeirdLong,
        p0.orientations == 6,
        0 <= p0.state < 6,
        p1.rotated_from(&p0, &b1, false, true),
        p2.rotated_from(&p1, &b2, true, true),
        targets_empty(&p0, weird_plan(p0.next_state(false), false).1),
    ensures
        forall|i: int, j: int| 0 <= i < 8 && 0 <= j < 8 ==> #[trigger] p2.cells[i][j] == p0.cells[i][j],
        p2.state == p0.state,
{
    let s = p0.state as int;
    let ns = p0.next_state(false);
    assert(p1.state == ns);
    assert(p1.next_state(true) == s);
    let fwd = weird_plan(ns, false).1;
    let back = weird_plan(s, true).1;
    assert(forall|k: int| 0 <= k < fwd.len() ==> #[trigger] back[k] == (fwd[k].2, fwd[k].3, fwd[k].0, fwd[k].1));
    lemma_moves_undone(&p0, &p1, &p2, fwd, back);
}

} // verus!
