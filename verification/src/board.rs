//! The board grid and its mechanics: occupancy (with Fall Out), landing and the
//! "idiot" bad-move detection, line clearing with funds, garbage lines, and the
//! one-shot board effects of weapons turning on and off.

use vstd::prelude::*;
use crate::cell::{Cell, CellKind, landed_spec};
use crate::constants::{
    BT_BAD_MOVE, BT_BOARD_HGT, BT_BOARD_WTH, BT_BOTTLE_X, BT_BOTTLE_Y, BT_FALL_OUT_LEDGE,
    BT_GREEN, BT_HAPPY_VAL, BT_INVISIBLE, BT_MISSED_SMILEY, BT_NEAR_DEATH, BT_NEUTRAL,
    BT_PIECE_HEIGHT, BT_PIECE_WIDTH,
};
use crate::rng::{Rng, lcg_next, lcg_iter, draw};
use crate::weapons::{ActiveFlags, WeaponToken, token_index};

verus! {

/// Result of [`Board::check_lines`].
#[derive(Clone, Copy, PartialEq, Eq, Debug, Default)]
pub struct LineClear {
    /// Number of lines cleared.
    pub lines: i32,
    /// Sum of cell values across all cleared lines.
    pub value: i32,
    /// Funds awarded: `value * lines`.
    pub funds: i32,
}

/// The board: a `width` by `height` grid, row-major, `None` = empty.
#[derive(Clone, Debug)]
pub struct Board {
    pub width: i32,
    pub height: i32,
    /// Row-major squares: index `y * width + x`.
    pub cells: Vec<Option<Cell>>,
    /// Active-weapon flags consulted by the board mechanics.
    pub active: ActiveFlags,
    /// Board currently flipped (Upbyside).
    pub upside: bool,
    /// True for the computer's board.
    pub computer: bool,
    /// Idiot signal and its reason, set by landing and line checks.
    pub idiot: bool,
    pub reason: i16,
    /// Board indices filled during the current placement.
    pub new_fill: Vec<usize>,
}

/// `y * w + x` stays below `w * h` for in-range coordinates.
pub proof fn lemma_index(w: int, h: int, x: int, y: int)
    requires
        0 <= x < w,
        0 <= y < h,
    ensures
        0 <= y * w + x < w * h,
{
    assert(0 <= y * w) by (nonlinear_arith)
        requires
            0 <= y,
            0 <= w,
    ;
    assert(y * w + x < w * h) by (nonlinear_arith)
        requires
            0 <= x < w,
            0 <= y < h,
    ;
}

/// Distinct in-range coordinates have distinct indices.
pub proof fn lemma_index_inj(w: int, x1: int, y1: int, x2: int, y2: int)
    requires
        0 <= x1 < w,
        0 <= x2 < w,
        y1 * w + x1 == y2 * w + x2,
    ensures
        x1 == x2,
        y1 == y2,
{
    assert(y1 == y2) by (nonlinear_arith)
        requires
            0 <= x1 < w,
            0 <= x2 < w,
            y1 * w + x1 == y2 * w + x2,
    ;
}

impl Board {
    /// The grid, row-major.
    pub open spec fn grid(&self) -> Seq<Option<Cell>> {
        self.cells@
    }

    /// Board indices filled during the current placement.
    pub open spec fn fresh(&self) -> Seq<usize> {
        self.new_fill@
    }

    /// Dimensions are sane and the grid has `width * height` squares.
    pub open spec fn wf(&self) -> bool {
        &&& 0 <= self.width <= i32::MAX - 16
        &&& 0 <= self.height <= i32::MAX - 16
        &&& self.width * self.height <= i32::MAX
        &&& self.grid().len() == self.width * self.height
    }

    /// Whether `(x, y)` lies on the board.
    pub open spec fn in_bounds(&self, x: int, y: int) -> bool {
        0 <= x < self.width && 0 <= y < self.height
    }

    /// The square at `(x, y)`; `None` if empty or off the board.
    pub open spec fn at(&self, x: int, y: int) -> Option<Cell> {
        if self.in_bounds(x, y) {
            self.grid()[y * self.width + x]
        } else {
            None
        }
    }

    /// Whether weapon `t`'s flag is on for this board.
    pub open spec fn flag(&self, t: WeaponToken) -> bool {
        self.active@[token_index(t)] != 0
    }

    /// Everything but the grid is the same.
    pub open spec fn same_but_grid(&self, o: &Board) -> bool {
        &&& self.width == o.width
        &&& self.height == o.height
        &&& self.active == o.active
        &&& self.upside == o.upside
        &&& self.computer == o.computer
        &&& self.idiot == o.idiot
        &&& self.reason == o.reason
        &&& self.fresh() == o.fresh()
    }

    /// The grid after writing `c` at `(x, y)` (unchanged when off the board).
    pub open spec fn grid_with(&self, x: int, y: int, c: Option<Cell>) -> Seq<Option<Cell>> {
        if self.in_bounds(x, y) {
            self.grid().update(y * self.width + x, c)
        } else {
            self.grid()
        }
    }

    /// Whether `(x, y)` blocks a piece: off the board or filled. With Fall Out
    /// active the middle of the floor and ceiling opens up, except for a ledge of
    /// `BT_FALL_OUT_LEDGE` columns at each side, up to a piece height away.
    pub open spec fn occupied_spec(&self, x: int, y: int) -> bool {
        let w = self.width as int;
        let h = self.height as int;
        if !self.flag(WeaponToken::FallOut) {
            x < 0 || x >= w || y >= h || y < 0 || self.at(x, y) is Some
        } else {
            let ledge = x < BT_FALL_OUT_LEDGE || x >= w - BT_FALL_OUT_LEDGE;
            ||| x < 0
            ||| x >= w
            ||| (y >= h && ledge)
            ||| (y < 0 && ledge)
            ||| (0 <= y < h && self.at(x, y) is Some)
            ||| y < -8
            ||| y > h + 8
        }
    }

    /// An empty board. (The other operations of a board ask for
    /// [`Board::wf`], which leaves 16 squares of slack below `i32::MAX` on
    /// each side.)
    pub fn new(width: i32, height: i32, computer: bool) -> (b: Board)
        requires
            0 <= width,
            0 <= height,
            width * height <= i32::MAX,
        ensures
            width <= i32::MAX - 16 && height <= i32::MAX - 16 ==> b.wf(),
            b.grid().len() == width * height,
            b.width == width,
            b.height == height,
            b.computer == computer,
            !b.upside,
            !b.idiot,
            b.reason == 0,
            b.fresh().len() == 0,
            b.active@ == Seq::new(34, |i: int| 0i32),
            forall|x: int, y: int| #[trigger] b.at(x, y) is None,
    {
        let n = (width * height) as usize;
        let cells: Vec<Option<Cell>> = vec![None; n];
        let b = Board {
            width,
            height,
            cells,
            active: ActiveFlags::new(),
            upside: false,
            computer,
            idiot: false,
            reason: 0,
            new_fill: Vec::new(),
        };
        assert forall|x: int, y: int| #[trigger] b.at(x, y) is None by {
            if b.in_bounds(x, y) {
                lemma_index(width as int, height as int, x, y);
            }
        }
        b
    }

    /// A copy of this board.
    pub fn duplicate(&self) -> (b: Board)
        ensures
            b.same_but_grid(self),
            b.grid() == self.grid(),
            b.wf() == self.wf(),
    {
        let mut cells: Vec<Option<Cell>> = Vec::new();
        let mut k: usize = 0;
        while k < self.cells.len()
            invariant
                0 <= k <= self.cells@.len(),
                cells@ == self.cells@.take(k as int),
            decreases self.cells@.len() - k,
        {
            cells.push(self.cells[k]);
            assert(self.cells@.take(k + 1) =~= self.cells@.take(k as int).push(self.cells@[k as int]));
            k = k + 1;
        }
        let mut fresh: Vec<usize> = Vec::new();
        let mut m: usize = 0;
        while m < self.new_fill.len()
            invariant
                0 <= m <= self.new_fill@.len(),
                fresh@ == self.new_fill@.take(m as int),
            decreases self.new_fill@.len() - m,
        {
            fresh.push(self.new_fill[m]);
            assert(self.new_fill@.take(m + 1) =~= self.new_fill@.take(m as int).push(self.new_fill@[m as int]));
            m = m + 1;
        }
        assert(cells@ =~= self.cells@);
        assert(fresh@ =~= self.new_fill@);
        Board {
            width: self.width,
            height: self.height,
            cells,
            active: self.active,
            upside: self.upside,
            computer: self.computer,
            idiot: self.idiot,
            reason: self.reason,
            new_fill: fresh,
        }
    }

    /// A standard 10 by 28 board.
    pub fn standard(computer: bool) -> (b: Board)
        ensures
            b.wf(),
            b.width == BT_BOARD_WTH,
            b.height == BT_BOARD_HGT,
            b.computer == computer,
            !b.upside,
            !b.idiot,
            b.reason == 0,
            b.fresh().len() == 0,
            b.active@ == Seq::new(34, |i: int| 0i32),
            forall|x: int, y: int| #[trigger] b.at(x, y) is None,
    {
        Board::new(BT_BOARD_WTH, BT_BOARD_HGT, computer)
    }

    fn in_bounds_exec(&self, x: i32, y: i32) -> (b: bool)
        ensures
            b == self.in_bounds(x as int, y as int),
    {
        x >= 0 && x < self.width && y >= 0 && y < self.height
    }

    fn index(&self, x: i32, y: i32) -> (i: usize)
        requires
            self.wf(),
            self.in_bounds(x as int, y as int),
        ensures
            i == y * self.width + x,
            i < self.grid().len(),
    {
        proof {
            lemma_index(self.width as int, self.height as int, x as int, y as int);
        }
        (y * self.width + x) as usize
    }

    /// The cell at `(x, y)`, or `None` if empty or off the board.
    pub fn get(&self, x: i32, y: i32) -> (c: Option<Cell>)
        requires
            self.wf(),
        ensures
            c == self.at(x as int, y as int),
    {
        if self.in_bounds_exec(x, y) {
            self.cells[self.index(x, y)]
        } else {
            None
        }
    }

    /// Write `(x, y)` directly; writes off the board are ignored.
    pub fn set(&mut self, x: i32, y: i32, cell: Option<Cell>)
        requires
            old(self).wf(),
        ensures
            final(self).wf(),
            final(self).same_but_grid(old(self)),
            final(self).grid() == old(self).grid_with(x as int, y as int, cell),
            forall|x1: int, y1: int| #[trigger] final(self).at(x1, y1) == if x1 == x && y1 == y && old(self).in_bounds(x1, y1) {
                cell
            } else {
                old(self).at(x1, y1)
            },
    {
        if self.in_bounds_exec(x, y) {
            let i = self.index(x, y);
            self.cells.set(i, cell);
        }
        proof {
            old(self).lemma_at_grid_with(*self, x as int, y as int, cell);
        }
    }

    /// Reading a board whose grid is `self.grid_with(x, y, c)`.
    pub proof fn lemma_at_grid_with(&self, b: Board, x: int, y: int, c: Option<Cell>)
        requires
            self.wf(),
            b.width == self.width,
            b.height == self.height,
            b.grid() == self.grid_with(x, y, c),
        ensures
            b.wf(),
            forall|x1: int, y1: int| #[trigger] b.at(x1, y1) == if x1 == x && y1 == y && self.in_bounds(x1, y1) {
                c
            } else {
                self.at(x1, y1)
            },
    {
        if self.in_bounds(x, y) {
            lemma_index(self.width as int, self.height as int, x, y);
        }
        assert(b.grid().len() == self.grid().len());
        assert forall|x1: int, y1: int| #[trigger] b.at(x1, y1) == if x1 == x && y1 == y && self.in_bounds(x1, y1) {
            c
        } else {
            self.at(x1, y1)
        } by {
            if self.in_bounds(x1, y1) {
                lemma_index(self.width as int, self.height as int, x1, y1);
                if self.in_bounds(x, y) {
                    lemma_index(self.width as int, self.height as int, x, y);
                    if y1 * self.width + x1 == y * self.width + x {
                        lemma_index_inj(self.width as int, x1, y1, x, y);
                    }
                }
            }
        }
    }

    fn is_active(&self, t: WeaponToken) -> (b: bool)
        ensures
            b == self.flag(t),
    {
        self.active.is_active(t)
    }

    /// Whether `(x, y)` blocks a piece (see [`Board::occupied_spec`]).
    pub fn occupied(&self, x: i32, y: i32) -> (b: bool)
        requires
            self.wf(),
        ensures
            b == self.occupied_spec(x as int, y as int),
    {
        if !self.is_active(WeaponToken::FallOut) {
            if x < 0 || x >= self.width || y >= self.height || y < 0 {
                return true;
            }
            return self.get(x, y).is_some();
        }
        if x < 0 || x >= self.width || (y >= self.height && (x < BT_FALL_OUT_LEDGE || x
            >= self.width - BT_FALL_OUT_LEDGE)) || (y < 0 && (x < BT_FALL_OUT_LEDGE || x
            >= self.width - BT_FALL_OUT_LEDGE)) {
            return true;
        }
        if y < self.height && y >= 0 && self.get(x, y).is_some() {
            return true;
        }
        if y < 0 - BT_PIECE_HEIGHT as i32 || y > self.height + BT_PIECE_HEIGHT as i32 {
            return true;
        }
        false
    }

    /// Place `cell` at `(x, y)` and record the square as freshly filled. A box
    /// landing off the board is discarded.
    pub fn fill(&mut self, x: i32, y: i32, cell: Cell)
        requires
            old(self).wf(),
        ensures
            final(self).wf(),
            final(self).width == old(self).width,
            final(self).height == old(self).height,
            final(self).active == old(self).active,
            final(self).upside == old(self).upside,
            final(self).computer == old(self).computer,
            final(self).idiot == old(self).idiot,
            final(self).reason == old(self).reason,
            final(self).grid() == old(self).grid_with(x as int, y as int, Some(cell)),
            final(self).fresh() == if old(self).in_bounds(x as int, y as int) {
                old(self).fresh().push((y * old(self).width + x) as usize)
            } else {
                old(self).fresh()
            },
            forall|x1: int, y1: int| #[trigger] final(self).at(x1, y1) == if x1 == x && y1 == y && old(self).in_bounds(x1, y1) {
                Some(cell)
            } else {
                old(self).at(x1, y1)
            },
    {
        if self.in_bounds_exec(x, y) {
            let i = self.index(x, y);
            self.cells.set(i, Some(cell));
            self.new_fill.push(i);
        }
        proof {
            old(self).lemma_at_grid_with(*self, x as int, y as int, Some(cell));
        }
    }

    /// Raise the idiot signal with `reason`.
    pub fn set_idiot(&mut self, reason: i16)
        ensures
            final(self).idiot,
            final(self).reason == reason,
            final(self).width == old(self).width,
            final(self).height == old(self).height,
            final(self).grid() == old(self).grid(),
            final(self).fresh() == old(self).fresh(),
            final(self).active == old(self).active,
            final(self).upside == old(self).upside,
            final(self).computer == old(self).computer,
    {
        self.idiot = true;
        self.reason = reason;
    }

    /// Read and clear the idiot signal, returning its reason if it was raised.
    pub fn flush_idiot(&mut self) -> (r: Option<i16>)
        ensures
            r == (if old(self).idiot { Some(old(self).reason) } else { None::<i16> }),
            !final(self).idiot,
            final(self).reason == old(self).reason,
            final(self).width == old(self).width,
            final(self).height == old(self).height,
            final(self).grid() == old(self).grid(),
            final(self).fresh() == old(self).fresh(),
            final(self).active == old(self).active,
            final(self).upside == old(self).upside,
            final(self).computer == old(self).computer,
    {
        let out = if self.idiot {
            Some(self.reason)
        } else {
            None
        };
        self.idiot = false;
        out
    }

    /// Empty the board and forget the fresh squares.
    pub fn clear(&mut self)
        requires
            old(self).wf(),
        ensures
            final(self).wf(),
            final(self).width == old(self).width,
            final(self).height == old(self).height,
            final(self).active == old(self).active,
            final(self).upside == old(self).upside,
            final(self).computer == old(self).computer,
            final(self).idiot == old(self).idiot,
            final(self).reason == old(self).reason,
            final(self).fresh().len() == 0,
            forall|x: int, y: int| #[trigger] final(self).at(x, y) is None,
    {
        let n = self.cells.len();
        let mut i: usize = 0;
        while i < n
            invariant
                n == self.cells.len(),
                n == old(self).cells.len(),
                0 <= i <= n,
                forall|k: int| 0 <= k < i ==> self.cells@[k] is None,
                self.width == old(self).width,
                self.height == old(self).height,
                self.active == old(self).active,
                self.upside == old(self).upside,
                self.computer == old(self).computer,
                self.idiot == old(self).idiot,
                self.reason == old(self).reason,
            decreases n - i,
        {
            self.cells.set(i, None);
            i = i + 1;
        }
        self.new_fill.clear();
        assert forall|x: int, y: int| #[trigger] self.at(x, y) is None by {
            if self.in_bounds(x, y) {
                lemma_index(self.width as int, self.height as int, x, y);
            }
        }
    }

    /// The index of an occupied, in-bounds square.
    pub open spec fn fill_index_spec(&self, x: int, y: int) -> Option<int> {
        if self.in_bounds(x, y) && self.at(x, y) is Some {
            Some(y * self.width + x)
        } else {
            None
        }
    }

    /// Whether `k` names a square filled during the current placement.
    pub open spec fn is_fresh(&self, k: Option<int>) -> bool {
        exists|n: int| 0 <= n < self.fresh().len() && k == Some(self.fresh()[n] as int)
    }

    /// An empty square walled in on the left, the right and the logical top
    /// (below when Upbyside is active), where a wall was placed this turn.
    pub open spec fn sealed(&self, cx: int, cy: int) -> bool {
        let ty = if self.flag(WeaponToken::Upbyside) { cy + 1 } else { cy - 1 };
        &&& !self.occupied_spec(cx, cy)
        &&& self.occupied_spec(cx - 1, cy)
        &&& self.occupied_spec(cx + 1, cy)
        &&& self.occupied_spec(cx, ty)
        &&& (self.is_fresh(self.fill_index_spec(cx - 1, cy)) || self.is_fresh(self.fill_index_spec(cx + 1, cy))
            || self.is_fresh(self.fill_index_spec(cx, ty)))
    }

    /// Some square of the 8x8 piece frame at `(x, y)` is sealed, scanning
    /// columns before `i` and, in column `i`, rows before `j`.
    pub open spec fn sealed_before(&self, x: int, y: int, i: int, j: int) -> bool {
        exists|a: int, b: int|
            0 <= a < 8 && 0 <= b < 8 && (a < i || (a == i && b < j)) && #[trigger] self.sealed(x + a, y + b)
    }

    /// Some square of the 8x8 piece frame at `(x, y)` is sealed.
    pub open spec fn bad_move_at(&self, x: int, y: int) -> bool {
        self.sealed_before(x, y, 8, 0)
    }

    fn fill_index(&self, x: i32, y: i32) -> (r: Option<usize>)
        requires
            self.wf(),
        ensures
            r matches Some(k) ==> self.fill_index_spec(x as int, y as int) == Some(k as int),
            r is None ==> self.fill_index_spec(x as int, y as int) is None,
    {
        if self.in_bounds_exec(x, y) {
            let i = self.index(x, y);
            if self.cells[i].is_some() {
                return Some(i);
            }
        }
        None
    }

    fn fresh_matches(&self, k: Option<usize>) -> (b: bool)
        ensures
            k matches Some(v) ==> b == self.is_fresh(Some(v as int)),
            k is None ==> !b,
    {
        match k {
            None => false,
            Some(v) => {
                let mut n: usize = 0;
                while n < self.new_fill.len()
                    invariant
                        k == Some(v),
                        0 <= n <= self.new_fill.len(),
                        forall|m: int| 0 <= m < n ==> self.fresh()[m] != v,
                    decreases self.new_fill.len() - n,
                {
                    if self.new_fill[n] == v {
                        assert(0 <= n < self.fresh().len() && Some(v as int) == Some(self.fresh()[n as int] as int));
                        return true;
                    }
                    n = n + 1;
                }
                false
            },
        }
    }

    /// Bad-move detection after a piece locks with its frame at `(x, y)`: raise
    /// the idiot signal (reason `BT_BAD_MOVE`) if the lock sealed an empty square.
    /// The fresh-square record is then cleared; the grid is untouched.
    pub fn landed(&mut self, x: i32, y: i32)
        requires
            old(self).wf(),
            x <= i32::MAX - 7,
            y <= i32::MAX - 7,
        ensures
            final(self).wf(),
            final(self).idiot == (old(self).idiot || old(self).bad_move_at(x as int, y as int)),
            final(self).reason == if old(self).bad_move_at(x as int, y as int) { BT_BAD_MOVE } else { old(self).reason },
            final(self).fresh().len() == 0,
            final(self).grid() == old(self).grid(),
            final(self).width == old(self).width,
            final(self).height == old(self).height,
            final(self).active == old(self).active,
            final(self).upside == old(self).upside,
            final(self).computer == old(self).computer,
    {
        let upside = self.is_active(WeaponToken::Upbyside);
        let mut i: i32 = 0;
        while i < BT_PIECE_WIDTH as i32
            invariant
                0 <= i <= 8,
                x <= i32::MAX - 7,
                y <= i32::MAX - 7,
                upside == old(self).flag(WeaponToken::Upbyside),
                self.wf(),
                self.grid() == old(self).grid(),
                self.fresh() == old(self).fresh(),
                self.width == old(self).width,
                self.height == old(self).height,
                self.active == old(self).active,
                self.upside == old(self).upside,
                self.computer == old(self).computer,
                self.idiot == (old(self).idiot || old(self).sealed_before(x as int, y as int, i as int, 0)),
                self.reason == if old(self).sealed_before(x as int, y as int, i as int, 0) { BT_BAD_MOVE } else { old(self).reason },
            decreases 8 - i,
        {
            let mut j: i32 = 0;
            while j < BT_PIECE_HEIGHT as i32
                invariant
                    0 <= i < 8,
                    0 <= j <= 8,
                    x <= i32::MAX - 7,
                    y <= i32::MAX - 7,
                    upside == old(self).flag(WeaponToken::Upbyside),
                    self.wf(),
                    self.grid() == old(self).grid(),
                    self.fresh() == old(self).fresh(),
                    self.width == old(self).width,
                    self.height == old(self).height,
                    self.active == old(self).active,
                    self.upside == old(self).upside,
                    self.computer == old(self).computer,
                    self.idiot == (old(self).idiot || old(self).sealed_before(x as int, y as int, i as int, j as int)),
                    self.reason == if old(self).sealed_before(x as int, y as int, i as int, j as int) { BT_BAD_MOVE } else { old(self).reason },
                decreases 8 - j,
            {
                let cx = x + i;
                let cy = y + j;
                let hit = !self.occupied(cx, cy) && self.occupied(cx - 1, cy) && self.occupied(cx + 1, cy)
                    && self.occupied(cx, if !upside { cy - 1 } else { cy + 1 }) && {
                    let ty = if !upside { cy - 1 } else { cy + 1 };
                    let left = self.fill_index(cx - 1, cy);
                    let right = self.fill_index(cx + 1, cy);
                    let top = self.fill_index(cx, ty);
                    self.fresh_matches(left) || self.fresh_matches(right) || self.fresh_matches(top)
                };
                assert(hit == old(self).sealed(cx as int, cy as int));
                if hit {
                    self.idiot = true;
                    self.reason = BT_BAD_MOVE;
                }
                proof {
                    assert(old(self).sealed_before(x as int, y as int, i as int, j as int + 1) == (old(self).sealed_before(x as int, y as int, i as int, j as int) || old(self).sealed(x + i, y + j)));
                }
                j = j + 1;
            }
            proof {
                assert(old(self).sealed_before(x as int, y as int, i as int + 1, 0) == old(self).sealed_before(x as int, y as int, i as int, 8));
            }
            i = i + 1;
        }
        self.new_fill.clear();
    }

    /// Set or clear the active flag of `token` consulted by the board mechanics.
    pub fn set_active(&mut self, token: WeaponToken, on: bool)
        ensures
            final(self).active@ == old(self).active@.update(token_index(token), if on { 1i32 } else { 0i32 }),
            final(self).width == old(self).width,
            final(self).height == old(self).height,
            final(self).grid() == old(self).grid(),
            final(self).fresh() == old(self).fresh(),
            final(self).upside == old(self).upside,
            final(self).computer == old(self).computer,
            final(self).idiot == old(self).idiot,
            final(self).reason == old(self).reason,
    {
        self.active.set(token, on);
    }

    /// Swap Meet: exchange this board's grid with `other`'s. Only the squares
    /// move; flags, dimensions and idiot state stay with their board.
    pub fn swap_cells(&mut self, other: &mut Board)
        requires
            old(self).width == old(other).width,
            old(self).height == old(other).height,
        ensures
            final(self).grid() == old(other).grid(),
            final(other).grid() == old(self).grid(),
            final(self).width == old(self).width,
            final(self).height == old(self).height,
            final(self).active == old(self).active,
            final(self).upside == old(self).upside,
            final(self).computer == old(self).computer,
            final(self).idiot == old(self).idiot,
            final(self).reason == old(self).reason,
            final(self).fresh() == old(self).fresh(),
            final(other).width == old(other).width,
            final(other).height == old(other).height,
            final(other).active == old(other).active,
            final(other).upside == old(other).upside,
            final(other).computer == old(other).computer,
            final(other).idiot == old(other).idiot,
            final(other).reason == old(other).reason,
            final(other).fresh() == old(other).fresh(),
    {
        std::mem::swap(&mut self.cells, &mut other.cells);
    }

    /// Exchange two on-board squares.
    fn swap(&mut self, x1: i32, y1: i32, x2: i32, y2: i32)
        requires
            old(self).wf(),
            old(self).in_bounds(x1 as int, y1 as int),
            old(self).in_bounds(x2 as int, y2 as int),
        ensures
            final(self).wf(),
            final(self).same_but_grid(old(self)),
            forall|x: int, y: int| #[trigger] final(self).at(x, y) == if x == x1 && y == y1 {
                old(self).at(x2 as int, y2 as int)
            } else if x == x2 && y == y2 {
                old(self).at(x1 as int, y1 as int)
            } else {
                old(self).at(x, y)
            },
    {
        let a = self.get(x1, y1);
        let b = self.get(x2, y2);
        self.set(x1, y1, b);
        self.set(x2, y2, a);
    }

    /// Mirror top to bottom (Upbyside).
    fn flip_horiz(&mut self)
        requires
            old(self).wf(),
        ensures
            final(self).wf(),
            final(self).same_but_grid(old(self)),
            forall|x: int, y: int| #[trigger] final(self).at(x, y) == old(self).at(x, old(self).height - 1 - y),
    {
        let h = self.height;
        let w = self.width;
        let mut i: i32 = 0;
        while i < h / 2
            invariant
                self.wf(),
                self.same_but_grid(old(self)),
                h == self.height,
                w == self.width,
                0 <= i <= h / 2,
                forall|x: int, y: int| #[trigger] self.at(x, y) == if y < i || y > h - 1 - i {
                    old(self).at(x, h - 1 - y)
                } else {
                    old(self).at(x, y)
                },
            decreases h / 2 - i,
        {
            let mut j: i32 = 0;
            while j < w
                invariant
                    self.wf(),
                    self.same_but_grid(old(self)),
                    h == self.height,
                    w == self.width,
                    0 <= i < h / 2,
                    0 <= j <= w,
                    forall|x: int, y: int| #[trigger] self.at(x, y) == if y < i || y > h - 1 - i || ((y == i || y == h
                        - 1 - i) && x < j) {
                        old(self).at(x, h - 1 - y)
                    } else {
                        old(self).at(x, y)
                    },
                decreases w - j,
            {
                self.swap(j, i, j, h - 1 - i);
                j = j + 1;
            }
            i = i + 1;
        }
    }

    /// Mirror left to right (Flip Out).
    fn flip_vert(&mut self)
        requires
            old(self).wf(),
        ensures
            final(self).wf(),
            final(self).same_but_grid(old(self)),
            forall|x: int, y: int| #[trigger] final(self).at(x, y) == old(self).at(old(self).width - 1 - x, y),
    {
        let h = self.height;
        let w = self.width;
        let mut i: i32 = 0;
        while i < w / 2
            invariant
                self.wf(),
                self.same_but_grid(old(self)),
                h == self.height,
                w == self.width,
                0 <= i <= w / 2,
                forall|x: int, y: int| #[trigger] self.at(x, y) == if x < i || x > w - 1 - i {
                    old(self).at(w - 1 - x, y)
                } else {
                    old(self).at(x, y)
                },
            decreases w / 2 - i,
        {
            let mut j: i32 = 0;
            while j < h
                invariant
                    self.wf(),
                    self.same_but_grid(old(self)),
                    h == self.height,
                    w == self.width,
                    0 <= i < w / 2,
                    0 <= j <= h,
                    forall|x: int, y: int| #[trigger] self.at(x, y) == if x < i || x > w - 1 - i || ((x == i || x == w
                        - 1 - i) && y < j) {
                        old(self).at(w - 1 - x, y)
                    } else {
                        old(self).at(x, y)
                    },
                decreases h - j,
            {
                self.swap(w - 1 - i, j, i, j);
                j = j + 1;
            }
            i = i + 1;
        }
    }

    /// Every filled square of this board is a copy of a square of `o`.
    pub open spec fn cells_from(&self, o: &Board) -> bool {
        forall|x: int, y: int| (#[trigger] self.at(x, y)) is Some ==> exists|x2: int, y2: int| o.at(x2, y2) == self.at(x, y)
    }

    /// Line removal shifts the ordinary way (Upbyside is off, or this is the
    /// computer's board) and no Bottle neck narrows it.
    pub open spec fn plain_removal(&self) -> bool {
        !self.flag(WeaponToken::Bottle) && (!self.flag(WeaponToken::Upbyside) || self.computer)
    }

    /// What removing row `line` over columns `[lo, hi)` leaves at `(x, y)` on a
    /// board with plain removal: without The Force the rows above drop one and
    /// row 0 empties; with The Force only row `line` empties (and only for a
    /// line below the top row).
    pub open spec fn removed_at(&self, line: int, lo: int, hi: int, force: bool, x: int, y: int) -> Option<Cell> {
        if !(lo <= x < hi) || y > line || y < 0 {
            self.at(x, y)
        } else if force {
            if y == line && line >= 1 { None } else { self.at(x, y) }
        } else if y == 0 {
            None
        } else {
            self.at(x, y - 1)
        }
    }

    /// The state of a plain removal after finishing rows `line` down to `i + 1`
    /// and, in row `i`, columns `[lo, j)`.
    spec fn removing_at(&self, line: int, lo: int, hi: int, force: bool, i: int, j: int, x: int, y: int) -> Option<Cell> {
        if !(lo <= x < hi) || y > line || y < 0 {
            self.at(x, y)
        } else if force {
            if y == line && (i < line || (i == line && x < j)) { None } else { self.at(x, y) }
        } else if i < y {
            self.at(x, y - 1)
        } else if y == i {
            if x < j { self.at(x, y - 1) } else if i < line { None } else { self.at(x, y) }
        } else if y == i - 1 && x < j {
            None
        } else {
            self.at(x, y)
        }
    }

    /// The board is a player's board flipped by Upbyside, without Bottle: full
    /// rows close up toward row 0.
    pub open spec fn flipped_removal(&self) -> bool {
        !self.flag(WeaponToken::Bottle) && self.flag(WeaponToken::Upbyside) && !self.computer
    }

    /// What removing row `line` over columns `[lo, hi)` leaves at `(x, y)` on a
    /// flipped board (see [`Board::flipped_removal`]): without The Force the
    /// rows below rise one and the last row empties; with The Force only row
    /// `line` empties (and only for a line above the last).
    pub open spec fn removed_up_at(&self, line: int, lo: int, hi: int, force: bool, x: int, y: int) -> Option<Cell> {
        let h = self.height as int;
        if !(lo <= x < hi) || y < line || y >= h {
            self.at(x, y)
        } else if force {
            if y == line && line < h - 1 { None } else { self.at(x, y) }
        } else if y == h - 1 {
            None
        } else {
            self.at(x, y + 1)
        }
    }

    /// The state of a flipped removal after finishing rows `line` up to
    /// `i - 1` and, in row `i`, columns `[lo, j)`.
    spec fn removing_up_at(&self, line: int, lo: int, hi: int, force: bool, i: int, j: int, x: int, y: int) -> Option<Cell> {
        if !(lo <= x < hi) || y < line || y >= self.height {
            self.at(x, y)
        } else if force {
            if y == line && (i > line || (i == line && x < j)) { None } else { self.at(x, y) }
        } else if y < i {
            self.at(x, y + 1)
        } else if y == i {
            if x < j { self.at(x, y + 1) } else if i > line { None } else { self.at(x, y) }
        } else if y == i + 1 && x < j {
            None
        } else {
            self.at(x, y)
        }
    }

    /// Removals go through the bottle: Bottle on, The Force off.
    pub open spec fn bottled_removal(&self) -> bool {
        self.flag(WeaponToken::Bottle) && !self.flag(WeaponToken::Force)
    }

    /// Removals close up toward row 0: Upbyside on a player's board.
    pub open spec fn removes_up(&self) -> bool {
        self.flag(WeaponToken::Upbyside) && !self.computer
    }

    /// What removing row `line` under Bottle and The Force leaves at `(x, y)`:
    /// the row empties in place over the columns the removal moves in it
    /// (see [`Board::neck_cols`], [`Board::neck_up_cols`]), except the first row
    /// the removal would reach (row 0, or the last row when flipped).
    pub open spec fn bottle_forced_at(&self, line: int, lo: int, hi: int, x: int, y: int) -> Option<Cell> {
        let c = if self.removes_up() { self.neck_up_cols(line, lo, hi, line) } else { self.neck_cols(line, lo, hi, line) };
        let moves = if self.removes_up() { line < self.height - 1 } else { line >= 1 };
        if moves && self.in_bounds(x, y) && y == line && in_cols(c, x) {
            None
        } else {
            self.at(x, y)
        }
    }

    /// The state of a removal under Bottle and The Force: row `line` emptied
    /// over the columns of its range below `done`.
    spec fn forcing_at(&self, line: int, lo: int, hi: int, done: int, x: int, y: int) -> Option<Cell> {
        let c = if self.removes_up() { self.neck_up_cols(line, lo, hi, line) } else { self.neck_cols(line, lo, hi, line) };
        if self.in_bounds(x, y) && y == line && c.0 <= x < done && x < c.1 {
            None
        } else {
            self.at(x, y)
        }
    }

    /// What removing full row `line` through the bottle leaves at `(x, y)`:
    /// [`Board::bottle_forced_at`] under The Force, else
    /// [`Board::bottle_removed_up_at`] on a flipped board and
    /// [`Board::bottle_removed_at`] otherwise.
    pub open spec fn bottle_cleared_at(&self, line: int, x: int, y: int) -> Option<Cell> {
        if self.flag(WeaponToken::Force) {
            self.bottle_forced_at(line, 0, self.width as int, x, y)
        } else if self.removes_up() {
            self.bottle_removed_up_at(line, 0, self.width as int, x, y)
        } else {
            self.bottle_removed_at(line, 0, self.width as int, x, y)
        }
    }

    /// The columns a removal of row `line` toward row 0 under Bottle moves in
    /// row `i`: only the neck once the removal has reached the bottle's band.
    pub open spec fn neck_up_cols(&self, line: int, lo: int, hi: int, i: int) -> (int, int) {
        if i >= BT_BOARD_HGT / 2 - BT_BOTTLE_Y - 1 && line <= BT_BOARD_HGT / 2 + BT_BOTTLE_Y {
            (BT_BOTTLE_X as int, self.width - BT_BOTTLE_X)
        } else {
            (lo, hi)
        }
    }

    /// What removing row `line` toward row 0 under Bottle leaves at `(x, y)`:
    /// each row from `line` down to the next-to-last takes the row below it
    /// over its [`Board::neck_up_cols`]; a square the row above took but this
    /// row does not refill empties; the last row empties over the columns the
    /// row above it moved (over `[lo, hi)` when `line` is the last row).
    pub open spec fn bottle_removed_up_at(&self, line: int, lo: int, hi: int, x: int, y: int) -> Option<Cell> {
        if !self.in_bounds(x, y) || y < line {
            self.at(x, y)
        } else if y < self.height - 1 && in_cols(self.neck_up_cols(line, lo, hi, y), x) {
            self.at(x, y + 1)
        } else if line < y && in_cols(self.neck_up_cols(line, lo, hi, y - 1), x) {
            None
        } else if y == self.height - 1 && line == self.height - 1 && lo <= x < hi {
            None
        } else {
            self.at(x, y)
        }
    }

    /// The state of a removal toward row 0 under Bottle after finishing rows
    /// `line` up to `i - 1` and, in row `i`, the neck columns up to `j`.
    spec fn bottling_up_at(&self, line: int, lo: int, hi: int, i: int, j: int, x: int, y: int) -> Option<Cell> {
        if !self.in_bounds(x, y) || y < line {
            self.at(x, y)
        } else if y < i && in_cols(self.neck_up_cols(line, lo, hi, y), x) {
            self.at(x, y + 1)
        } else if y == i && y < self.height - 1 && self.neck_up_cols(line, lo, hi, i).0 <= x < j {
            self.at(x, y + 1)
        } else if line < y && y <= i && in_cols(self.neck_up_cols(line, lo, hi, y - 1), x) {
            None
        } else if y == i + 1 && self.neck_up_cols(line, lo, hi, i).0 <= x < j {
            None
        } else {
            self.at(x, y)
        }
    }

    /// The columns a removal of row `line` under Bottle moves in row `i`: only
    /// the neck once the removal has reached the bottle's band of rows, the
    /// columns `[lo, hi)` before.
    pub open spec fn neck_cols(&self, line: int, lo: int, hi: int, i: int) -> (int, int) {
        if i <= BT_BOARD_HGT / 2 + BT_BOTTLE_Y && line >= BT_BOARD_HGT / 2 - BT_BOTTLE_Y {
            (BT_BOTTLE_X as int, self.width - BT_BOTTLE_X)
        } else {
            (lo, hi)
        }
    }

    /// What removing row `line` under Bottle leaves at `(x, y)` (see
    /// [`Board::bottled_removal`]): each row from `line` up to row 1 takes the
    /// row above it over its [`Board::neck_cols`]; a square the row below took
    /// but this row does not refill empties; row 0 empties over the columns
    /// row 1 moved (over `[lo, hi)` when `line` is row 0).
    pub open spec fn bottle_removed_at(&self, line: int, lo: int, hi: int, x: int, y: int) -> Option<Cell> {
        if !self.in_bounds(x, y) || y > line {
            self.at(x, y)
        } else if 1 <= y && in_cols(self.neck_cols(line, lo, hi, y), x) {
            self.at(x, y - 1)
        } else if y < line && in_cols(self.neck_cols(line, lo, hi, y + 1), x) {
            None
        } else if y == 0 && line == 0 && lo <= x < hi {
            None
        } else {
            self.at(x, y)
        }
    }

    /// The state of a removal under Bottle after finishing rows `line` down
    /// to `i + 1` and, in row `i`, the neck columns from the first up to `j`.
    spec fn bottling_at(&self, line: int, lo: int, hi: int, i: int, j: int, x: int, y: int) -> Option<Cell> {
        if !self.in_bounds(x, y) || y > line {
            self.at(x, y)
        } else if i < y && in_cols(self.neck_cols(line, lo, hi, y), x) {
            self.at(x, y - 1)
        } else if y == i && 1 <= y && self.neck_cols(line, lo, hi, i).0 <= x < j {
            self.at(x, y - 1)
        } else if i <= y && y < line && in_cols(self.neck_cols(line, lo, hi, y + 1), x) {
            None
        } else if y == i - 1 && self.neck_cols(line, lo, hi, i).0 <= x < j {
            None
        } else {
            self.at(x, y)
        }
    }

    /// Drop the board into row `line` over columns `[x1, x2)` (negative `x2`
    /// means full width), honoring The Force (no shift), Bottle (narrow to the
    /// neck) and Upbyside (shift the other way).
    fn remove_line(&mut self, line: i32, x1: i32, x2: i32)
        requires
            old(self).wf(),
            0 <= line < old(self).height,
            0 <= x1,
        ensures
            final(self).wf(),
            final(self).same_but_grid(old(self)),
            final(self).cells_from(old(self)),
            old(self).plain_removal() ==> forall|x: int, y: int| #[trigger] final(self).at(x, y) == old(self).removed_at(
                line as int,
                x1 as int,
                if x2 < 0 { old(self).width as int } else { x2 as int },
                old(self).flag(WeaponToken::Force),
                x,
                y,
            ),
            old(self).bottled_removal() && !old(self).removes_up() ==> forall|x: int, y: int| #[trigger] final(self).at(x, y) == old(self).bottle_removed_at(
                line as int,
                x1 as int,
                if x2 < 0 { old(self).width as int } else { x2 as int },
                x,
                y,
            ),
            old(self).flag(WeaponToken::Bottle) && old(self).flag(WeaponToken::Force) ==> forall|x: int, y: int| #[trigger] final(self).at(x, y) == old(self).bottle_forced_at(
                line as int,
                x1 as int,
                if x2 < 0 { old(self).width as int } else { x2 as int },
                x,
                y,
            ),
            old(self).bottled_removal() && old(self).removes_up() ==> forall|x: int, y: int| #[trigger] final(self).at(x, y) == old(self).bottle_removed_up_at(
                line as int,
                x1 as int,
                if x2 < 0 { old(self).width as int } else { x2 as int },
                x,
                y,
            ),
            old(self).flipped_removal() ==> forall|x: int, y: int| #[trigger] final(self).at(x, y) == old(self).removed_up_at(
                line as int,
                x1 as int,
                if x2 < 0 { old(self).width as int } else { x2 as int },
                old(self).flag(WeaponToken::Force),
                x,
                y,
            ),
    {
        let mut x1 = x1;
        let mut x2 = x2;
        if x2 < 0 {
            x2 = self.width;
        }
        let ghost lo = x1 as int;
        let ghost hi = x2 as int;
        let force = self.is_active(WeaponToken::Force);
        let bottle = self.is_active(WeaponToken::Bottle);
        let h = BT_BOARD_HGT;
        let ghost bd = bottle && !force;
        let ghost bf = bottle && force;
        if !self.is_active(WeaponToken::Upbyside) || self.computer {
            let mut i = line;
            while i > 0
                invariant
                    self.wf(),
                    self.same_but_grid(old(self)),
                    self.cells_from(old(self)),
                    0 <= i <= line < self.height,
                    0 <= x1,
                    force == old(self).flag(WeaponToken::Force),
                    bottle == old(self).flag(WeaponToken::Bottle),
                    !bottle ==> x1 == lo && x2 == hi,
                    !bottle ==> forall|x: int, y: int| #[trigger] self.at(x, y) == old(self).removing_at(line as int, lo, hi, force, i as int, lo, x, y),
                    0 <= lo,
                    h == BT_BOARD_HGT,
                    bd == (bottle && !force),
                    bd ==> forall|x: int, y: int| #[trigger] self.at(x, y) == old(self).bottling_at(line as int, lo, hi, i as int, old(self).neck_cols(line as int, lo, hi, i as int).0, x, y),
                    bf == (bottle && force),
                    bf ==> !old(self).removes_up(),
                    bf ==> forall|x: int, y: int| #[trigger] self.at(x, y) == old(self).forcing_at(line as int, lo, hi, if i < line { old(self).neck_cols(line as int, lo, hi, line as int).1 } else { old(self).neck_cols(line as int, lo, hi, line as int).0 }, x, y),
                    bottle && i == line ==> x1 == lo && x2 == hi,
                    bottle && i < line ==> x1 == old(self).neck_cols(line as int, lo, hi, i + 1).0 && x2 == old(self).neck_cols(line as int, lo, hi, i + 1).1,
                decreases i,
            {
                if bottle && i <= h / 2 + BT_BOTTLE_Y && i >= h / 2 - BT_BOTTLE_Y {
                    x1 = BT_BOTTLE_X;
                    x2 = self.width - BT_BOTTLE_X;
                }
                proof {
                    if bottle {
                        assert(self.width == old(self).width);
                        assert(BT_BOARD_HGT / 2 + BT_BOTTLE_Y == 18 && BT_BOARD_HGT / 2 - BT_BOTTLE_Y == 10);
                        if i == line {
                            assert(x1 == old(self).neck_cols(line as int, lo, hi, i as int).0);
                            assert(x2 == old(self).neck_cols(line as int, lo, hi, i as int).1);
                        } else {
                            assert(x1 == old(self).neck_cols(line as int, lo, hi, i as int).0);
                            assert(x2 == old(self).neck_cols(line as int, lo, hi, i as int).1);
                        }
                    }
                }
                let mut j = x1;
                while j < x2
                    invariant
                        self.wf(),
                        self.same_but_grid(old(self)),
                        self.cells_from(old(self)),
                        0 < i <= line < self.height,
                        0 <= x1 <= j,
                        force == old(self).flag(WeaponToken::Force),
                        bottle == old(self).flag(WeaponToken::Bottle),
                        !bottle ==> x1 == lo && x2 == hi,
                        !bottle ==> forall|x: int, y: int| #[trigger] self.at(x, y) == old(self).removing_at(line as int, lo, hi, force, i as int, j as int, x, y),
                        0 <= lo,
                        bd == (bottle && !force),
                        j <= x2 || j == x1,
                        bottle ==> x1 == old(self).neck_cols(line as int, lo, hi, i as int).0 && x2 == old(self).neck_cols(line as int, lo, hi, i as int).1,
                        bd ==> forall|x: int, y: int| #[trigger] self.at(x, y) == old(self).bottling_at(line as int, lo, hi, i as int, j as int, x, y),
                        bf == (bottle && force),
                        bf ==> !old(self).removes_up(),
                        bf ==> forall|x: int, y: int| #[trigger] self.at(x, y) == old(self).forcing_at(line as int, lo, hi, if i < line { old(self).neck_cols(line as int, lo, hi, line as int).1 } else { j as int }, x, y),
                    decreases x2 - j,
                {
                    if force {
                        let ghost before = *self;
                        if i == line && self.get(j, i).is_some() {
                            self.set(j, i, None);
                        }
                        proof {
                            if bf {
                                assert forall|x: int, y: int| #[trigger] self.at(x, y) == old(self).forcing_at(line as int, lo, hi, if i < line { old(self).neck_cols(line as int, lo, hi, line as int).1 } else { j + 1 }, x, y) by {
                                    assert(before.at(x, y) == old(self).forcing_at(line as int, lo, hi, if i < line { old(self).neck_cols(line as int, lo, hi, line as int).1 } else { j as int }, x, y));
                                }
                            }
                        }
                    } else {
                        let ghost before = *self;
                        let above = self.get(j, i - 1);
                        self.set(j, i, above);
                        self.set(j, i - 1, None);
                        proof {
                            if bd {
                                assert(above == old(self).at(j as int, i - 1)) by {
                                    assert(before.at(j as int, i - 1) == old(self).bottling_at(line as int, lo, hi, i as int, j as int, j as int, i - 1));
                                }
                                assert forall|x: int, y: int| #[trigger] self.at(x, y) == old(self).bottling_at(line as int, lo, hi, i as int, j + 1, x, y) by {
                                    assert(before.at(x, y) == old(self).bottling_at(line as int, lo, hi, i as int, j as int, x, y));
                                }
                            }
                        }
                    }
                    j = j + 1;
                }
                proof {
                    if bd {
                        assert forall|x: int, y: int| #[trigger] self.at(x, y) == old(self).bottling_at(line as int, lo, hi, i - 1, old(self).neck_cols(line as int, lo, hi, i - 1).0, x, y) by {
                            assert(self.at(x, y) == old(self).bottling_at(line as int, lo, hi, i as int, j as int, x, y));
                        }
                    }
                    if bf {
                        assert forall|x: int, y: int| #[trigger] self.at(x, y) == old(self).forcing_at(line as int, lo, hi, old(self).neck_cols(line as int, lo, hi, line as int).1, x, y) by {
                            assert(self.at(x, y) == old(self).forcing_at(line as int, lo, hi, if i < line { old(self).neck_cols(line as int, lo, hi, line as int).1 } else { j as int }, x, y));
                        }
                    }
                }
                i = i - 1;
            }
            if !force {
                let mut k = x1;
                while k < x2
                    invariant
                        self.wf(),
                        self.same_but_grid(old(self)),
                        self.cells_from(old(self)),
                        0 <= x1 <= k,
                        k == x1 || k <= x2,
                        !force,
                        force == old(self).flag(WeaponToken::Force),
                        bottle == old(self).flag(WeaponToken::Bottle),
                        !bottle ==> x1 == lo && x2 == hi,
                        !bottle ==> forall|x: int, y: int| #[trigger] self.at(x, y) == if y == 0 && lo <= x < k {
                            None
                        } else {
                            old(self).removing_at(line as int, lo, hi, force, 0, lo, x, y)
                        },
                        0 <= lo,
                        bd == (bottle && !force),
                        bd && line == 0 ==> x1 == lo && x2 == hi,
                        bd && 0 < line ==> x1 == old(self).neck_cols(line as int, lo, hi, 1).0 && x2 == old(self).neck_cols(line as int, lo, hi, 1).1,
                        bd ==> forall|x: int, y: int| #[trigger] self.at(x, y) == if y == 0 && x1 <= x < k {
                            None
                        } else {
                            old(self).bottling_at(line as int, lo, hi, 0, old(self).neck_cols(line as int, lo, hi, 0).0, x, y)
                        },
                    decreases x2 - k,
                {
                    self.set(k, 0, None);
                    k = k + 1;
                }
            }
            proof {
                if bf {
                    assert forall|x: int, y: int| #[trigger] self.at(x, y) == old(self).bottle_forced_at(line as int, lo, hi, x, y) by {
                        assert(self.at(x, y) == old(self).forcing_at(line as int, lo, hi, if 0 < line { old(self).neck_cols(line as int, lo, hi, line as int).1 } else { old(self).neck_cols(line as int, lo, hi, line as int).0 }, x, y));
                    }
                }
                if bd {
                    assert forall|x: int, y: int| #[trigger] self.at(x, y) == old(self).bottle_removed_at(line as int, lo, hi, x, y) by {
                        assert(self.at(x, y) == if y == 0 && x1 <= x < x2 {
                            None
                        } else {
                            old(self).bottling_at(line as int, lo, hi, 0, old(self).neck_cols(line as int, lo, hi, 0).0, x, y)
                        });
                    }
                }
                if !bottle {
                    assert forall|x: int, y: int| #[trigger] self.at(x, y) == old(self).removed_at(line as int, lo, hi, force, x, y) by {
                        if force {
                            assert(self.at(x, y) == old(self).removing_at(line as int, lo, hi, force, 0, lo, x, y));
                        } else {
                            assert(x2 == hi);
                            assert(self.at(x, y) == if y == 0 && lo <= x < hi {
                                None
                            } else {
                                old(self).removing_at(line as int, lo, hi, force, 0, lo, x, y)
                            });
                        }
                    }
                }
            }
        } else {
            let mut i = line;
            while i < self.height - 1
                invariant
                    self.wf(),
                    self.same_but_grid(old(self)),
                    self.cells_from(old(self)),
                    0 <= line <= i,
                    i <= self.height - 1 || i == line,
                    0 <= x1,
                    force == old(self).flag(WeaponToken::Force),
                    bottle == old(self).flag(WeaponToken::Bottle),
                    !bottle ==> x1 == lo && x2 == hi,
                    !bottle ==> forall|x: int, y: int| #[trigger] self.at(x, y) == old(self).removing_up_at(line as int, lo, hi, force, i as int, lo, x, y),
                    0 <= lo,
                    h == BT_BOARD_HGT,
                    bd == (bottle && !force),
                    bd ==> forall|x: int, y: int| #[trigger] self.at(x, y) == old(self).bottling_up_at(line as int, lo, hi, i as int, old(self).neck_up_cols(line as int, lo, hi, i as int).0, x, y),
                    bf == (bottle && force),
                    bf ==> old(self).removes_up(),
                    bf ==> forall|x: int, y: int| #[trigger] self.at(x, y) == old(self).forcing_at(line as int, lo, hi, if i > line { old(self).neck_up_cols(line as int, lo, hi, line as int).1 } else { old(self).neck_up_cols(line as int, lo, hi, line as int).0 }, x, y),
                    bottle && i == line ==> x1 == lo && x2 == hi,
                    bottle && i > line ==> x1 == old(self).neck_up_cols(line as int, lo, hi, i - 1).0 && x2 == old(self).neck_up_cols(line as int, lo, hi, i - 1).1,
                decreases self.height - i,
            {
                if bottle && i <= h / 2 + BT_BOTTLE_Y && i >= h / 2 - BT_BOTTLE_Y - 1 {
                    x1 = BT_BOTTLE_X;
                    x2 = self.width - BT_BOTTLE_X;
                }
                proof {
                    if bottle {
                        assert(self.width == old(self).width);
                        assert(x1 == old(self).neck_up_cols(line as int, lo, hi, i as int).0);
                        assert(x2 == old(self).neck_up_cols(line as int, lo, hi, i as int).1);
                    }
                }
                let mut j = x1;
                while j < x2
                    invariant
                        self.wf(),
                        self.same_but_grid(old(self)),
                        self.cells_from(old(self)),
                        0 <= line <= i < self.height - 1,
                        0 <= x1 <= j,
                        force == old(self).flag(WeaponToken::Force),
                        bottle == old(self).flag(WeaponToken::Bottle),
                        !bottle ==> x1 == lo && x2 == hi,
                        !bottle ==> forall|x: int, y: int| #[trigger] self.at(x, y) == old(self).removing_up_at(line as int, lo, hi, force, i as int, j as int, x, y),
                        0 <= lo,
                        bd == (bottle && !force),
                        j <= x2 || j == x1,
                        bottle ==> x1 == old(self).neck_up_cols(line as int, lo, hi, i as int).0 && x2 == old(self).neck_up_cols(line as int, lo, hi, i as int).1,
                        bd ==> forall|x: int, y: int| #[trigger] self.at(x, y) == old(self).bottling_up_at(line as int, lo, hi, i as int, j as int, x, y),
                        bf == (bottle && force),
                        bf ==> old(self).removes_up(),
                        bf ==> forall|x: int, y: int| #[trigger] self.at(x, y) == old(self).forcing_at(line as int, lo, hi, if i > line { old(self).neck_up_cols(line as int, lo, hi, line as int).1 } else { j as int }, x, y),
                    decreases x2 - j,
                {
                    if force {
                        let ghost before = *self;
                        if i == line && self.get(j, i).is_some() {
                            self.set(j, i, None);
                        }
                        proof {
                            if bf {
                                assert forall|x: int, y: int| #[trigger] self.at(x, y) == old(self).forcing_at(line as int, lo, hi, if i > line { old(self).neck_up_cols(line as int, lo, hi, line as int).1 } else { j + 1 }, x, y) by {
                                    assert(before.at(x, y) == old(self).forcing_at(line as int, lo, hi, if i > line { old(self).neck_up_cols(line as int, lo, hi, line as int).1 } else { j as int }, x, y));
                                }
                            }
                        }
                    } else {
                        let ghost before = *self;
                        let below = self.get(j, i + 1);
                        self.set(j, i, below);
                        self.set(j, i + 1, None);
                        proof {
                            if bd {
                                assert(below == old(self).at(j as int, i + 1)) by {
                                    assert(before.at(j as int, i + 1) == old(self).bottling_up_at(line as int, lo, hi, i as int, j as int, j as int, i + 1));
                                }
                                assert forall|x: int, y: int| #[trigger] self.at(x, y) == old(self).bottling_up_at(line as int, lo, hi, i as int, j + 1, x, y) by {
                                    assert(before.at(x, y) == old(self).bottling_up_at(line as int, lo, hi, i as int, j as int, x, y));
                                }
                            }
                        }
                    }
                    j = j + 1;
                }
                proof {
                    if bd {
                        assert forall|x: int, y: int| #[trigger] self.at(x, y) == old(self).bottling_up_at(line as int, lo, hi, i + 1, old(self).neck_up_cols(line as int, lo, hi, i + 1).0, x, y) by {
                            assert(self.at(x, y) == old(self).bottling_up_at(line as int, lo, hi, i as int, j as int, x, y));
                        }
                    }
                    if bf {
                        assert forall|x: int, y: int| #[trigger] self.at(x, y) == old(self).forcing_at(line as int, lo, hi, old(self).neck_up_cols(line as int, lo, hi, line as int).1, x, y) by {
                            assert(self.at(x, y) == old(self).forcing_at(line as int, lo, hi, if i > line { old(self).neck_up_cols(line as int, lo, hi, line as int).1 } else { j as int }, x, y));
                        }
                    }
                }
                i = i + 1;
            }
            let ghost iend = i as int;
            if !force {
                let mut k = x1;
                while k < x2
                    invariant
                        self.wf(),
                        self.same_but_grid(old(self)),
                        self.cells_from(old(self)),
                        0 <= x1 <= k,
                        k == x1 || k <= x2,
                        !force,
                        force == old(self).flag(WeaponToken::Force),
                        bottle == old(self).flag(WeaponToken::Bottle),
                        !bottle ==> x1 == lo && x2 == hi,
                        !bottle ==> forall|x: int, y: int| #[trigger] self.at(x, y) == if y == self.height - 1 && lo <= x < k {
                            None
                        } else {
                            old(self).removing_up_at(line as int, lo, hi, force, iend, lo, x, y)
                        },
                        0 <= lo,
                        bd == (bottle && !force),
                        iend == old(self).height - 1 || iend == line,
                        line <= iend,
                        bd && iend == line ==> x1 == lo && x2 == hi,
                        bd && iend > line ==> x1 == old(self).neck_up_cols(line as int, lo, hi, iend - 1).0 && x2 == old(self).neck_up_cols(line as int, lo, hi, iend - 1).1,
                        bd ==> forall|x: int, y: int| #[trigger] self.at(x, y) == if y == self.height - 1 && x1 <= x < k {
                            None
                        } else {
                            old(self).bottling_up_at(line as int, lo, hi, iend, old(self).neck_up_cols(line as int, lo, hi, iend).0, x, y)
                        },
                    decreases x2 - k,
                {
                    self.set(k, self.height - 1, None);
                    k = k + 1;
                }
            }
            proof {
                if bf {
                    assert(iend == old(self).height - 1 || iend == line);
                    assert forall|x: int, y: int| #[trigger] self.at(x, y) == old(self).bottle_forced_at(line as int, lo, hi, x, y) by {
                        assert(self.at(x, y) == old(self).forcing_at(line as int, lo, hi, if iend > line { old(self).neck_up_cols(line as int, lo, hi, line as int).1 } else { old(self).neck_up_cols(line as int, lo, hi, line as int).0 }, x, y));
                    }
                }
                if bd {
                    assert(iend == old(self).height - 1 || iend == line);
                    assert forall|x: int, y: int| #[trigger] self.at(x, y) == old(self).bottle_removed_up_at(line as int, lo, hi, x, y) by {
                        assert(self.at(x, y) == if y == self.height - 1 && x1 <= x < x2 {
                            None
                        } else {
                            old(self).bottling_up_at(line as int, lo, hi, iend, old(self).neck_up_cols(line as int, lo, hi, iend).0, x, y)
                        });
                    }
                }
                if !bottle {
                    assert(iend == old(self).height - 1 || iend == line);
                    assert forall|x: int, y: int| #[trigger] self.at(x, y) == old(self).removed_up_at(line as int, lo, hi, force, x, y) by {
                        if force {
                            assert(self.at(x, y) == old(self).removing_up_at(line as int, lo, hi, force, iend, lo, x, y));
                        } else {
                            assert(self.at(x, y) == if y == self.height - 1 && lo <= x < hi {
                                None
                            } else {
                                old(self).removing_up_at(line as int, lo, hi, force, iend, lo, x, y)
                            });
                        }
                    }
                }
            }
        }
    }

    /// Row `y` is on the board and every square in it is filled.
    pub open spec fn row_full(&self, y: int) -> bool {
        0 <= y < self.height && forall|x: int| 0 <= x < self.width ==> (#[trigger] self.at(x, y)) is Some
    }

    /// Sum of the values of the first `n` squares of row `y` (empty squares count 0).
    pub open spec fn row_value_upto(&self, y: int, n: int) -> int
        decreases n,
    {
        if n <= 0 {
            0
        } else {
            self.row_value_upto(y, n - 1) + match self.at(n - 1, y) {
                Some(c) => c.value() as int,
                None => 0,
            }
        }
    }

    /// Sum of the values of row `y`.
    pub open spec fn row_value(&self, y: int) -> int {
        self.row_value_upto(y, self.width as int)
    }

    /// How many rows in `[lo, hi)` are full.
    pub open spec fn full_count(&self, lo: int, hi: int) -> int
        decreases hi - lo,
    {
        if lo >= hi {
            0
        } else {
            (if self.row_full(lo) { 1int } else { 0int }) + self.full_count(lo + 1, hi)
        }
    }

    /// Total value of the full rows in `[lo, hi)`.
    pub open spec fn full_value(&self, lo: int, hi: int) -> int
        decreases hi - lo,
    {
        if lo >= hi {
            0
        } else {
            (if self.row_full(lo) { self.row_value(lo) } else { 0int }) + self.full_value(lo + 1, hi)
        }
    }

    /// Row `y` holds an un-landed smiley's value (a square worth `BT_HAPPY_VAL`).
    pub open spec fn smiley_in(&self, y: int) -> bool {
        exists|x: int| 0 <= x < self.width && ((#[trigger] self.at(x, y)) matches Some(c) && c.value() == BT_HAPPY_VAL)
    }

    /// A row in `[lo, hi)` that is not full holds a smiley.
    pub open spec fn missed_smiley(&self, lo: int, hi: int) -> bool {
        exists|y: int| lo <= y < hi && !self.row_full(y) && #[trigger] self.smiley_in(y)
    }

    /// Row `y` has a filled square.
    pub open spec fn row_nonempty(&self, y: int) -> bool {
        exists|x: int| 0 <= x < self.width && (#[trigger] self.at(x, y)) is Some
    }

    /// The lowest row of the unbroken run of non-empty rows reaching down to row
    /// `j` (rows above row 0 excluded): `j + 1` when row `j` itself is empty.
    pub open spec fn stack_low(&self, j: int) -> int
        decreases j,
    {
        if j >= 1 && self.row_nonempty(j) {
            self.stack_low(j - 1)
        } else {
            j + 1
        }
    }

    /// The top of the stack for the near-death gauge.
    pub open spec fn stack_top(&self) -> int {
        let low = self.stack_low(self.height - 1);
        if low < self.height - 1 { low } else { self.height - 1 }
    }

    /// Every filled square is worth between 0 and 255 funds.
    pub open spec fn values_ok(&self) -> bool {
        forall|x: int, y: int| (#[trigger] self.at(x, y)) matches Some(c) ==> 0 <= c.value() <= 255
    }

    /// The step budget of the line scan.
    pub open spec fn scan_budget(&self) -> int {
        self.height * self.height + 2 * self.height + 2
    }

    /// The most lines one scan can tally: at most one per row, except under
    /// Bottle, where a row can come full again, bounded by the scan budget.
    pub open spec fn tally_room(&self) -> int {
        if self.flag(WeaponToken::Bottle) { self.scan_budget() } else { self.height as int }
    }

    /// The tally of the line check of this board fits in `i32`: its number of
    /// lines, their total value and that value times the number of lines (the
    /// funds). Without Bottle the lines are the full rows; under Bottle they
    /// are the rows the scan run (see [`Board::scan_run`]) removes.
    pub open spec fn tally_fits(&self) -> bool {
        let h = self.height as int;
        if self.flag(WeaponToken::Bottle) {
            forall|run: Seq<Board>, js: Seq<int>| #[trigger] self.scan_run(run, js) ==> {
                let n = run.len() - 1;
                &&& run_lines(run, js, n) <= i32::MAX
                &&& i32::MIN <= run_value(run, js, n) <= i32::MAX
                &&& i32::MIN <= run_value(run, js, n) * run_lines(run, js, n) <= i32::MAX
            }
        } else {
            &&& i32::MIN <= self.full_value(0, h) <= i32::MAX
            &&& i32::MIN <= self.full_value(0, h) * self.full_count(0, h) <= i32::MAX
        }
    }

    /// A bound under which the line check's tally fits in `i32` (see
    /// [`lemma_tally_bounded`]): every box worth 0 to 255, and `tally_room()`
    /// lines of such boxes, their value times their number, within `i32`.
    pub open spec fn tally_bounded(&self) -> bool {
        &&& self.values_ok()
        &&& self.width * 255 <= i32::MAX
        &&& self.tally_room() * self.tally_room() * (self.width * 255) <= i32::MAX
    }
}

/// A square after landing (smileys become frowns).
pub open spec fn land_opt(c: Option<Cell>) -> Option<Cell> {
    match c {
        Some(v) => Some(landed_spec(v)),
        None => None,
    }
}

proof fn lemma_full_count_split(b: &Board, lo: int, m: int, hi: int)
    requires
        lo <= m <= hi,
    ensures
        b.full_count(lo, hi) == b.full_count(lo, m) + b.full_count(m, hi),
        b.full_value(lo, hi) == b.full_value(lo, m) + b.full_value(m, hi),
    decreases m - lo,
{
    if lo < m {
        lemma_full_count_split(b, lo + 1, m, hi);
    }
}

proof fn lemma_full_count_bounds(b: &Board, lo: int, hi: int)
    requires
        lo <= hi,
    ensures
        0 <= b.full_count(lo, hi) <= hi - lo,
    decreases hi - lo,
{
    if lo < hi {
        lemma_full_count_bounds(b, lo + 1, hi);
    }
}

proof fn lemma_full_value_bounds(b: &Board, lo: int, hi: int)
    requires
        lo <= hi,
        b.values_ok(),
        b.width >= 0,
    ensures
        0 <= b.full_value(lo, hi) <= (hi - lo) * (b.width * 255),
    decreases hi - lo,
{
    if lo < hi {
        lemma_full_value_bounds(b, lo + 1, hi);
        lemma_row_value_bounds(b, lo, b.width as int);
        assert((hi - lo) * (b.width * 255) == (hi - (lo + 1)) * (b.width * 255) + b.width * 255) by (nonlinear_arith);
    }
}

proof fn lemma_row_value_bounds(b: &Board, y: int, n: int)
    requires
        b.values_ok(),
        0 <= n,
    ensures
        0 <= b.row_value_upto(y, n) <= n * 255,
    decreases n,
{
    if n > 0 {
        lemma_row_value_bounds(b, y, n - 1);
        match b.at(n - 1, y) {
            Some(c) => {
                assert(0 <= c.value() <= 255);
            },
            None => {},
        }
    }
}

/// Two boards agreeing on row `y` agree on its value.
proof fn lemma_row_value_same(a: &Board, b: &Board, ya: int, yb: int, n: int)
    requires
        forall|x: int| 0 <= x < n ==> a.at(x, ya) == b.at(x, yb),
    ensures
        a.row_value_upto(ya, n) == b.row_value_upto(yb, n),
    decreases n,
{
    if n > 0 {
        lemma_row_value_same(a, b, ya, yb, n - 1);
        assert(a.at(n - 1, ya) == b.at(n - 1, yb));
    }
}

impl Board {

    /// The state of the line scan on a plain board, relative to the board `ob`
    /// it started from: rows at or above `j` are `ob`'s unprocessed rows
    /// shifted down by the `lines` removed so far; every processed non-full
    /// row of `ob` sits, landed, below its full rows' count; the tally and the
    /// missed-smiley signal cover exactly the processed rows.
    pub open spec fn scan_inv(&self, ob: &Board, j: int, lines: int, value: int) -> bool {
        let s = j + 1 - lines;
        let s0 = if s > 0 { s } else { 0 };
        &&& -1 <= j < ob.height
        &&& 0 <= lines
        &&& forall|x: int, y: int| 0 <= y <= j ==> #[trigger] self.at(x, y) == (if y < lines {
            None
        } else {
            ob.at(x, y - lines)
        })
        &&& forall|x: int, r: int|
            s0 <= r < ob.height && !ob.row_full(r) ==> self.at(x, r + ob.full_count(r + 1, ob.height as int))
                == land_opt(#[trigger] ob.at(x, r))
        &&& forall|x: int, y: int| j < y < ob.height && y < lines ==> (#[trigger] self.at(x, y)) is None
        &&& lines == ob.full_count(s0, ob.height as int)
        &&& value == ob.full_value(s0, ob.height as int)
        &&& self.idiot == (ob.idiot || ob.missed_smiley(s0, ob.height as int))
        &&& self.reason == if ob.missed_smiley(s0, ob.height as int) { BT_MISSED_SMILEY } else { ob.reason }
    }
}

/// Where a processed non-full row lands: strictly below the scan position and on the board.
proof fn lemma_scan_position(ob: &Board, j: int, lines: int, r: int)
    requires
        ob.height >= 0,
        lines == ob.full_count(if j + 1 - lines > 0 { j + 1 - lines } else { 0 }, ob.height as int),
        (if j + 1 - lines > 0 { j + 1 - lines } else { 0 }) <= r < ob.height,
        !ob.row_full(r),
    ensures
        j < r + ob.full_count(r + 1, ob.height as int) < ob.height,
{
    let s = j + 1 - lines;
    let s0 = if s > 0 { s } else { 0 };
    lemma_full_count_split(ob, s0, r, ob.height as int);
    lemma_full_count_split(ob, r, r + 1, ob.height as int);
    lemma_full_count_bounds(ob, s0, r);
    lemma_full_count_bounds(ob, r + 1, ob.height as int);
    assert(ob.full_count(r, r + 1) == 0) by {
        assert(ob.full_count(r + 1, r + 1) == 0);
    }
}

#[verifier::spinoff_prover]
#[verifier::rlimit(60)]
proof fn lemma_scan_full_step(prev: &Board, cur: &Board, ob: &Board, j: int, lines: int, value: int, nvalue: int)
    requires
        prev.scan_inv(ob, j, lines, value),
        0 <= j,
        prev.width == ob.width,
        prev.height == ob.height,
        ob.width >= 1,
        ob.height >= 0,
        prev.row_full(j),
        nvalue == prev.row_value(j),
        forall|x: int, y: int| #[trigger] cur.at(x, y) == prev.removed_at(j, 0, prev.width as int, false, x, y),
        cur.width == prev.width,
        cur.height == prev.height,
        cur.idiot == prev.idiot,
        cur.reason == prev.reason,
    ensures
        cur.scan_inv(ob, j, lines + 1, value + nvalue),
{
    let h = ob.height as int;
    let s = j + 1 - lines;
    if j < lines {
        assert(prev.at(0, j) is Some);
        assert(false);
    }
    assert(s >= 1);
    let r0 = s - 1;
    assert forall|x: int| 0 <= x < ob.width implies #[trigger] ob.at(x, r0) is Some by {
        assert(prev.at(x, j) is Some);
        assert(prev.at(x, j) == ob.at(x, j - lines));
    }
    assert(ob.row_full(r0));
    assert forall|x: int| 0 <= x < ob.width implies prev.at(x, j) == ob.at(x, r0) by {
        assert(prev.at(x, j) == ob.at(x, j - lines));
    }
    lemma_row_value_same(prev, ob, j, r0, ob.width as int);
    assert(ob.full_count(r0, h) == 1 + ob.full_count(s, h));
    assert(ob.full_value(r0, h) == ob.row_value(r0) + ob.full_value(s, h));
    assert(ob.missed_smiley(r0, h) == ob.missed_smiley(s, h)) by {
        if ob.missed_smiley(r0, h) {
            let y = choose|y: int| r0 <= y < h && !ob.row_full(y) && #[trigger] ob.smiley_in(y);
            assert(y != r0);
        }
    }
    assert forall|x: int, y: int| 0 <= y <= j implies #[trigger] cur.at(x, y) == (if y < lines + 1 {
        None
    } else {
        ob.at(x, y - (lines + 1))
    }) by {
        assert(cur.at(x, y) == prev.removed_at(j, 0, prev.width as int, false, x, y));
        if 0 <= x < prev.width {
            if y >= 1 {
                assert(prev.at(x, y - 1) == (if y - 1 < lines { None } else { ob.at(x, y - 1 - lines) }));
            }
        } else {
            if y >= 1 {
                assert(prev.at(x, y) == (if y < lines { None } else { ob.at(x, y - lines) }));
            }
        }
    }
    assert forall|x: int, r: int|
        r0 <= r < h && !ob.row_full(r) implies cur.at(x, r + ob.full_count(r + 1, h)) == land_opt(#[trigger] ob.at(x, r)) by {
        assert(r != r0);
        lemma_scan_position(ob, j, lines, r);
        assert(cur.at(x, r + ob.full_count(r + 1, h)) == prev.removed_at(j, 0, prev.width as int, false, x, r + ob.full_count(r + 1, h)));
    }
    assert forall|x: int, y: int| j < y < h && y < lines + 1 implies (#[trigger] cur.at(x, y)) is None by {
        assert(false);
    }
}

#[verifier::spinoff_prover]
#[verifier::rlimit(100)]
proof fn lemma_scan_nonfull_old(prev: &Board, cur: &Board, ob: &Board, j: int, lines: int, value: int)
    requires
        prev.scan_inv(ob, j, lines, value),
        0 <= j,
        prev.width == ob.width,
        prev.height == ob.height,
        ob.width >= 1,
        ob.height >= 0,
        !prev.row_full(j),
        j >= lines,
        forall|x: int, y: int| #[trigger] cur.at(x, y) == if y == j { land_opt(prev.at(x, y)) } else { prev.at(x, y) },
        cur.width == prev.width,
        cur.height == prev.height,
        cur.idiot == (prev.idiot || prev.smiley_in(j)),
        cur.reason == if prev.smiley_in(j) { BT_MISSED_SMILEY } else { prev.reason },
    ensures
        cur.scan_inv(ob, j - 1, lines, value),
{
    let h = ob.height as int;
    let s = j + 1 - lines;
    let s0 = if s > 0 { s } else { 0 };
    let r0 = s - 1;
    assert forall|x: int| prev.at(x, j) == ob.at(x, r0) by {
        assert(prev.at(x, j) == ob.at(x, j - lines));
    }
    assert(!ob.row_full(r0)) by {
        let x = choose|x: int| 0 <= x < prev.width && !(#[trigger] prev.at(x, j) is Some);
        assert(prev.at(x, j) == ob.at(x, r0));
    }
    assert(ob.full_count(r0, h) == ob.full_count(s, h));
    assert(ob.full_value(r0, h) == ob.full_value(s, h));
    assert(prev.smiley_in(j) == ob.smiley_in(r0)) by {
        if prev.smiley_in(j) {
            let x = choose|x: int| 0 <= x < prev.width && ((#[trigger] prev.at(x, j)) matches Some(c) && c.value() == BT_HAPPY_VAL);
            assert(prev.at(x, j) == ob.at(x, r0));
        }
        if ob.smiley_in(r0) {
            let x = choose|x: int| 0 <= x < ob.width && ((#[trigger] ob.at(x, r0)) matches Some(c) && c.value() == BT_HAPPY_VAL);
            assert(prev.at(x, j) == ob.at(x, r0));
        }
    }
    assert(ob.missed_smiley(r0, h) == (ob.missed_smiley(s, h) || ob.smiley_in(r0))) by {
        if ob.missed_smiley(r0, h) {
            let y = choose|y: int| r0 <= y < h && !ob.row_full(y) && #[trigger] ob.smiley_in(y);
        }
        if ob.smiley_in(r0) {
            assert(r0 <= r0 < h && !ob.row_full(r0) && ob.smiley_in(r0));
        }
        if ob.missed_smiley(s, h) {
            let y = choose|y: int| s <= y < h && !ob.row_full(y) && #[trigger] ob.smiley_in(y);
            assert(r0 <= y < h);
        }
    }
    assert forall|x: int, r: int|
        r0 <= r < h && !ob.row_full(r) implies cur.at(x, r + ob.full_count(r + 1, h)) == land_opt(#[trigger] ob.at(x, r)) by {
        if r == r0 {
            assert(r0 + ob.full_count(s, h) == j);
            assert(cur.at(x, j) == land_opt(prev.at(x, j)));
        } else {
            lemma_scan_position(ob, j, lines, r);
            assert(cur.at(x, r + ob.full_count(r + 1, h)) == prev.at(x, r + ob.full_count(r + 1, h)));
        }
    }
    assert forall|x: int, y: int| j - 1 < y < h && y < lines implies (#[trigger] cur.at(x, y)) is None by {
        assert(false);
    }
    assert forall|x: int, y: int| 0 <= y <= j - 1 implies #[trigger] cur.at(x, y) == (if y < lines {
        None
    } else {
        ob.at(x, y - lines)
    }) by {
        assert(cur.at(x, y) == prev.at(x, y));
    }
}

#[verifier::rlimit(30)]
proof fn lemma_scan_nonfull_empty(prev: &Board, cur: &Board, ob: &Board, j: int, lines: int, value: int)
    requires
        prev.scan_inv(ob, j, lines, value),
        0 <= j,
        prev.width == ob.width,
        prev.height == ob.height,
        ob.width >= 1,
        ob.height >= 0,
        !prev.row_full(j),
        j < lines,
        forall|x: int, y: int| #[trigger] cur.at(x, y) == if y == j { land_opt(prev.at(x, y)) } else { prev.at(x, y) },
        cur.width == prev.width,
        cur.height == prev.height,
        cur.idiot == (prev.idiot || prev.smiley_in(j)),
        cur.reason == if prev.smiley_in(j) { BT_MISSED_SMILEY } else { prev.reason },
    ensures
        cur.scan_inv(ob, j - 1, lines, value),
{
    let h = ob.height as int;
    let s = j + 1 - lines;
    let s0 = if s > 0 { s } else { 0 };
    assert forall|x: int| prev.at(x, j) is None by {
        assert(prev.at(x, j) == (if j < lines { None } else { ob.at(x, j - lines) }));
    }
    assert(!prev.smiley_in(j)) by {
        if prev.smiley_in(j) {
            let x = choose|x: int| 0 <= x < prev.width && ((#[trigger] prev.at(x, j)) matches Some(c) && c.value() == BT_HAPPY_VAL);
            assert(prev.at(x, j) is None);
        }
    }
    assert forall|x: int, r: int|
        0 <= r < h && !ob.row_full(r) implies cur.at(x, r + ob.full_count(r + 1, h)) == land_opt(#[trigger] ob.at(x, r)) by {
        lemma_scan_position(ob, j, lines, r);
        assert(cur.at(x, r + ob.full_count(r + 1, h)) == prev.at(x, r + ob.full_count(r + 1, h)));
    }
    assert forall|x: int, y: int| j - 1 < y < h && y < lines implies (#[trigger] cur.at(x, y)) is None by {
        if y == j {
            assert(cur.at(x, j) == land_opt(prev.at(x, j)));
        } else {
            assert(cur.at(x, y) == prev.at(x, y));
        }
    }
    assert forall|x: int, y: int| 0 <= y <= j - 1 implies #[trigger] cur.at(x, y) == (if y < lines {
        None
    } else {
        ob.at(x, y - lines)
    }) by {
        assert(cur.at(x, y) == prev.at(x, y));
    }
}

proof fn lemma_scan_nonfull_step(prev: &Board, cur: &Board, ob: &Board, j: int, lines: int, value: int)
    requires
        prev.scan_inv(ob, j, lines, value),
        0 <= j,
        prev.width == ob.width,
        prev.height == ob.height,
        ob.width >= 1,
        ob.height >= 0,
        !prev.row_full(j),
        forall|x: int, y: int| #[trigger] cur.at(x, y) == if y == j { land_opt(prev.at(x, y)) } else { prev.at(x, y) },
        cur.width == prev.width,
        cur.height == prev.height,
        cur.idiot == (prev.idiot || prev.smiley_in(j)),
        cur.reason == if prev.smiley_in(j) { BT_MISSED_SMILEY } else { prev.reason },
    ensures
        cur.scan_inv(ob, j - 1, lines, value),
{
    if j >= lines {
        lemma_scan_nonfull_old(prev, cur, ob, j, lines, value);
    } else {
        lemma_scan_nonfull_empty(prev, cur, ob, j, lines, value);
    }
}

impl Board {
    /// The row a removal under The Force leaves full: row 0, or the last row
    /// on a flipped board.
    pub open spec fn force_keep(&self) -> int {
        if self.flipped_removal() { self.height - 1 } else { 0 }
    }

    /// What the line scan under The Force leaves of square `(x, y)`: a full
    /// row empties in place (except [`Board::force_keep`]), any other row
    /// keeps its boxes with the smileys landed.
    pub open spec fn force_cleared(&self, x: int, y: int) -> Option<Cell> {
        if self.row_full(y) {
            if y != self.force_keep() { None } else { self.at(x, y) }
        } else {
            land_opt(self.at(x, y))
        }
    }

    /// The state of the line scan under The Force on a board `ob` without
    /// Bottle: rows at or above `j` untouched, processed rows
    /// as [`Board::force_cleared`] says, the tally and the missed-smiley signal
    /// covering exactly the processed rows.
    pub open spec fn force_inv(&self, ob: &Board, j: int, lines: int, value: int) -> bool {
        let h = ob.height as int;
        &&& -1 <= j < h
        &&& forall|x: int, y: int| y <= j ==> #[trigger] self.at(x, y) == ob.at(x, y)
        &&& forall|x: int, y: int| j < y < h ==> #[trigger] self.at(x, y) == ob.force_cleared(x, y)
        &&& lines == ob.full_count(j + 1, h)
        &&& value == ob.full_value(j + 1, h)
        &&& self.idiot == (ob.idiot || ob.missed_smiley(j + 1, h))
        &&& self.reason == if ob.missed_smiley(j + 1, h) { BT_MISSED_SMILEY } else { ob.reason }
    }
}

/// A full row under The Force: it empties in place (row 0 excepted) and is
/// tallied.
proof fn lemma_force_full_step(prev: &Board, cur: &Board, ob: &Board, j: int, lines: int, value: int, nvalue: int)
    requires
        prev.force_inv(ob, j, lines, value),
        0 <= j,
        prev.width == ob.width,
        prev.height == ob.height,
        prev.row_full(j),
        nvalue == prev.row_value(j),
        forall|x: int, y: int| #[trigger] cur.at(x, y) == if y == j && j != ob.force_keep() && 0 <= x < prev.width {
            None
        } else {
            prev.at(x, y)
        },
        cur.width == prev.width,
        cur.height == prev.height,
        cur.idiot == prev.idiot,
        cur.reason == prev.reason,
    ensures
        cur.force_inv(ob, j - 1, lines + 1, value + nvalue),
{
    let h = ob.height as int;
    assert forall|x: int| 0 <= x < ob.width implies #[trigger] ob.at(x, j) is Some by {
        assert(prev.at(x, j) is Some);
        assert(prev.at(x, j) == ob.at(x, j));
    }
    assert(ob.row_full(j));
    assert forall|x: int| 0 <= x < ob.width implies prev.at(x, j) == ob.at(x, j) by {
        assert(prev.at(x, j) == ob.at(x, j));
    }
    lemma_row_value_same(prev, ob, j, j, ob.width as int);
    assert(ob.full_count(j, h) == 1 + ob.full_count(j + 1, h));
    assert(ob.full_value(j, h) == ob.row_value(j) + ob.full_value(j + 1, h));
    assert(ob.missed_smiley(j, h) == ob.missed_smiley(j + 1, h)) by {
        if ob.missed_smiley(j, h) {
            let y = choose|y: int| j <= y < h && !ob.row_full(y) && #[trigger] ob.smiley_in(y);
            assert(y != j);
        }
    }
    assert forall|x: int, y: int| y <= j - 1 implies #[trigger] cur.at(x, y) == ob.at(x, y) by {
        assert(prev.at(x, y) == ob.at(x, y));
    }
    assert forall|x: int, y: int| j - 1 < y < h implies #[trigger] cur.at(x, y) == ob.force_cleared(x, y) by {
        if y == j {
            assert(prev.at(x, y) == ob.at(x, y));
        } else {
            assert(prev.at(x, y) == ob.force_cleared(x, y));
        }
    }
}

/// A row that is not full under The Force: its smileys land and it is passed.
proof fn lemma_force_nonfull_step(prev: &Board, cur: &Board, ob: &Board, j: int, lines: int, value: int)
    requires
        prev.force_inv(ob, j, lines, value),
        0 <= j,
        prev.width == ob.width,
        prev.height == ob.height,
        !prev.row_full(j),
        forall|x: int, y: int| #[trigger] cur.at(x, y) == if y == j { land_opt(prev.at(x, y)) } else { prev.at(x, y) },
        cur.width == prev.width,
        cur.height == prev.height,
        cur.idiot == (prev.idiot || prev.smiley_in(j)),
        cur.reason == if prev.smiley_in(j) { BT_MISSED_SMILEY } else { prev.reason },
    ensures
        cur.force_inv(ob, j - 1, lines, value),
{
    let h = ob.height as int;
    assert(!ob.row_full(j)) by {
        let x = choose|x: int| 0 <= x < prev.width && !(#[trigger] prev.at(x, j) is Some);
        assert(prev.at(x, j) == ob.at(x, j));
    }
    assert(ob.full_count(j, h) == ob.full_count(j + 1, h));
    assert(ob.full_value(j, h) == ob.full_value(j + 1, h));
    assert(prev.smiley_in(j) == ob.smiley_in(j)) by {
        if prev.smiley_in(j) {
            let x = choose|x: int| 0 <= x < prev.width && ((#[trigger] prev.at(x, j)) matches Some(c) && c.value() == BT_HAPPY_VAL);
            assert(prev.at(x, j) == ob.at(x, j));
        }
        if ob.smiley_in(j) {
            let x = choose|x: int| 0 <= x < ob.width && ((#[trigger] ob.at(x, j)) matches Some(c) && c.value() == BT_HAPPY_VAL);
            assert(prev.at(x, j) == ob.at(x, j));
        }
    }
    assert(ob.missed_smiley(j, h) == (ob.smiley_in(j) || ob.missed_smiley(j + 1, h))) by {
        if ob.missed_smiley(j, h) {
            let y = choose|y: int| j <= y < h && !ob.row_full(y) && #[trigger] ob.smiley_in(y);
            if y != j {
                assert(ob.missed_smiley(j + 1, h));
            }
        }
        if ob.smiley_in(j) {
            assert(j <= j < h && !ob.row_full(j) && ob.smiley_in(j));
        }
        if ob.missed_smiley(j + 1, h) {
            let y = choose|y: int| j + 1 <= y < h && !ob.row_full(y) && #[trigger] ob.smiley_in(y);
            assert(j <= y < h);
        }
    }
    assert forall|x: int, y: int| y <= j - 1 implies #[trigger] cur.at(x, y) == ob.at(x, y) by {
        assert(prev.at(x, y) == ob.at(x, y));
    }
    assert forall|x: int, y: int| j - 1 < y < h implies #[trigger] cur.at(x, y) == ob.force_cleared(x, y) by {
        if y == j {
            assert(prev.at(x, y) == ob.at(x, y));
        } else {
            assert(prev.at(x, y) == ob.force_cleared(x, y));
        }
    }
}

impl Board {
    /// The state of the line scan without The Force on a flipped board `ob`
    /// (see [`Board::flipped_removal`]), rows at or above `p` processed: rows
    /// at or above `p` untouched; each processed row of `ob` that is not full
    /// has risen by the full rows between `p` and it, its smileys landed; the
    /// last `lines` rows are empty; every box below `p` comes, landed, from a
    /// processed row that is not full; no row below `p` is full; the tally and
    /// the missed-smiley signal cover exactly the processed rows.
    pub open spec fn flip_inv(&self, ob: &Board, p: int, lines: int, value: int) -> bool {
        let h = ob.height as int;
        &&& -1 <= p < h
        &&& forall|x: int, y: int| y <= p ==> #[trigger] self.at(x, y) == ob.at(x, y)
        &&& forall|x: int, r: int|
            p < r < h && !ob.row_full(r) ==> self.at(x, r - ob.full_count(p + 1, r)) == land_opt(#[trigger] ob.at(x, r))
        &&& forall|x: int, y: int| h - lines <= y < h ==> (#[trigger] self.at(x, y)) is None
        &&& forall|x: int, y: int|
            p < y < h && (#[trigger] self.at(x, y)) is Some ==> exists|r: int|
                p < r < h && !ob.row_full(r) && self.at(x, y) == land_opt(#[trigger] ob.at(x, r))
        &&& forall|y: int| p < y < h ==> !#[trigger] self.row_full(y)
        &&& lines == ob.full_count(p + 1, h)
        &&& value == ob.full_value(p + 1, h)
        &&& self.idiot == (ob.idiot || ob.missed_smiley(p + 1, h))
        &&& self.reason == if ob.missed_smiley(p + 1, h) { BT_MISSED_SMILEY } else { ob.reason }
    }
}

/// A fresh row that is not full on a flipped board: its smileys land where it
/// is.
#[verifier::spinoff_prover]
#[verifier::rlimit(60)]
proof fn lemma_flip_nonfull_step(prev: &Board, cur: &Board, ob: &Board, j: int, lines: int, value: int)
    requires
        prev.flip_inv(ob, j, lines, value),
        0 <= j,
        prev.width == ob.width,
        prev.height == ob.height,
        ob.width >= 1,
        !prev.row_full(j),
        forall|x: int, y: int| #[trigger] cur.at(x, y) == if y == j { land_opt(prev.at(x, y)) } else { prev.at(x, y) },
        cur.width == prev.width,
        cur.height == prev.height,
        cur.idiot == (prev.idiot || prev.smiley_in(j)),
        cur.reason == if prev.smiley_in(j) { BT_MISSED_SMILEY } else { prev.reason },
    ensures
        cur.flip_inv(ob, j - 1, lines, value),
{
    let h = ob.height as int;
    assert(!ob.row_full(j)) by {
        let x = choose|x: int| 0 <= x < prev.width && !(#[trigger] prev.at(x, j) is Some);
        assert(prev.at(x, j) == ob.at(x, j));
    }
    assert(ob.full_count(j, h) == ob.full_count(j + 1, h));
    assert(ob.full_value(j, h) == ob.full_value(j + 1, h));
    assert(prev.smiley_in(j) == ob.smiley_in(j)) by {
        if prev.smiley_in(j) {
            let x = choose|x: int| 0 <= x < prev.width && ((#[trigger] prev.at(x, j)) matches Some(c) && c.value() == BT_HAPPY_VAL);
            assert(prev.at(x, j) == ob.at(x, j));
        }
        if ob.smiley_in(j) {
            let x = choose|x: int| 0 <= x < ob.width && ((#[trigger] ob.at(x, j)) matches Some(c) && c.value() == BT_HAPPY_VAL);
            assert(prev.at(x, j) == ob.at(x, j));
        }
    }
    assert(ob.missed_smiley(j, h) == (ob.smiley_in(j) || ob.missed_smiley(j + 1, h))) by {
        if ob.missed_smiley(j, h) {
            let y = choose|y: int| j <= y < h && !ob.row_full(y) && #[trigger] ob.smiley_in(y);
            if y != j {
                assert(ob.missed_smiley(j + 1, h));
            }
        }
        if ob.smiley_in(j) {
            assert(j <= j < h && !ob.row_full(j) && ob.smiley_in(j));
        }
        if ob.missed_smiley(j + 1, h) {
            let y = choose|y: int| j + 1 <= y < h && !ob.row_full(y) && #[trigger] ob.smiley_in(y);
            assert(j <= y < h);
        }
    }
    assert forall|x: int, y: int| y <= j - 1 implies #[trigger] cur.at(x, y) == ob.at(x, y) by {
        assert(prev.at(x, y) == ob.at(x, y));
    }
    assert forall|x: int, r: int|
        j - 1 < r < h && !ob.row_full(r) implies cur.at(x, r - ob.full_count(j, r)) == land_opt(#[trigger] ob.at(x, r)) by {
        if r == j {
            assert(ob.full_count(j, j) == 0);
            assert(prev.at(x, j) == ob.at(x, j));
        } else {
            lemma_full_count_split(ob, j, j + 1, r);
            assert(ob.full_count(j, j + 1) == 0) by {
                assert(ob.full_count(j + 1, j + 1) == 0);
            }
            lemma_full_count_bounds(ob, j + 1, r);
            assert(prev.at(x, r - ob.full_count(j + 1, r)) == land_opt(ob.at(x, r)));
        }
    }
    assert forall|x: int, y: int| h - lines <= y < h implies (#[trigger] cur.at(x, y)) is None by {
        assert(prev.at(x, y) is None);
    }
    assert forall|x: int, y: int| j - 1 < y < h && (#[trigger] cur.at(x, y)) is Some implies exists|r: int|
        j - 1 < r < h && !ob.row_full(r) && cur.at(x, y) == land_opt(#[trigger] ob.at(x, r)) by {
        if y == j {
            assert(prev.at(x, j) == ob.at(x, j));
            assert(cur.at(x, y) == land_opt(ob.at(x, j)));
        } else {
            assert(prev.at(x, y) is Some);
            let r = choose|r: int| j < r < h && !ob.row_full(r) && prev.at(x, y) == land_opt(#[trigger] ob.at(x, r));
            assert(cur.at(x, y) == land_opt(ob.at(x, r)));
        }
    }
    assert forall|y: int| j - 1 < y < h implies !#[trigger] cur.row_full(y) by {
        if y == j {
            let x = choose|x: int| 0 <= x < ob.width && !(#[trigger] ob.at(x, j) is Some);
            assert(prev.at(x, j) == ob.at(x, j));
            assert(cur.at(x, j) is None);
        } else {
            assert(!prev.row_full(y));
            let x = choose|x: int| 0 <= x < prev.width && !(#[trigger] prev.at(x, y) is Some);
            assert(cur.at(x, y) is None);
        }
    }
}

/// A full fresh row on a flipped board: the rows below it rise one and the
/// last row empties.
#[verifier::spinoff_prover]
#[verifier::rlimit(60)]
proof fn lemma_flip_full_step(prev: &Board, cur: &Board, ob: &Board, j: int, lines: int, value: int, nvalue: int)
    requires
        prev.flip_inv(ob, j, lines, value),
        0 <= j,
        prev.width == ob.width,
        prev.height == ob.height,
        ob.width >= 1,
        prev.row_full(j),
        nvalue == prev.row_value(j),
        forall|x: int, y: int| #[trigger] cur.at(x, y) == prev.removed_up_at(j, 0, prev.width as int, false, x, y),
        cur.width == prev.width,
        cur.height == prev.height,
        cur.idiot == prev.idiot,
        cur.reason == prev.reason,
    ensures
        cur.flip_inv(ob, j - 1, lines + 1, value + nvalue),
{
    let h = ob.height as int;
    assert forall|x: int| 0 <= x < ob.width implies #[trigger] ob.at(x, j) is Some by {
        assert(prev.at(x, j) is Some);
        assert(prev.at(x, j) == ob.at(x, j));
    }
    assert(ob.row_full(j));
    assert forall|x: int| 0 <= x < ob.width implies prev.at(x, j) == ob.at(x, j) by {
        assert(prev.at(x, j) == ob.at(x, j));
    }
    lemma_row_value_same(prev, ob, j, j, ob.width as int);
    assert(ob.full_count(j, h) == 1 + ob.full_count(j + 1, h));
    assert(ob.full_value(j, h) == ob.row_value(j) + ob.full_value(j + 1, h));
    assert(ob.missed_smiley(j, h) == ob.missed_smiley(j + 1, h)) by {
        if ob.missed_smiley(j, h) {
            let y = choose|y: int| j <= y < h && !ob.row_full(y) && #[trigger] ob.smiley_in(y);
            assert(y != j);
        }
    }
    assert forall|x: int, y: int| y <= j - 1 implies #[trigger] cur.at(x, y) == ob.at(x, y) by {
        assert(cur.at(x, y) == prev.removed_up_at(j, 0, prev.width as int, false, x, y));
        assert(prev.at(x, y) == ob.at(x, y));
    }
    assert forall|x: int, r: int|
        j - 1 < r < h && !ob.row_full(r) implies cur.at(x, r - ob.full_count(j, r)) == land_opt(#[trigger] ob.at(x, r)) by {
        assert(r != j);
        lemma_full_count_split(ob, j, j + 1, r);
        assert(ob.full_count(j, j + 1) == 1) by {
            assert(ob.full_count(j + 1, j + 1) == 0);
        }
        lemma_full_count_bounds(ob, j + 1, r);
        let pos = r - ob.full_count(j + 1, r);
        assert(prev.at(x, pos) == land_opt(ob.at(x, r)));
        assert(cur.at(x, pos - 1) == prev.removed_up_at(j, 0, prev.width as int, false, x, pos - 1));
        if 0 <= x < prev.width {
            assert(cur.at(x, pos - 1) == prev.at(x, pos));
        } else {
            assert(cur.at(x, pos - 1) == prev.at(x, pos - 1));
            assert(prev.at(x, pos) is None);
        }
    }
    assert forall|x: int, y: int| h - (lines + 1) <= y < h implies (#[trigger] cur.at(x, y)) is None by {
        lemma_full_count_bounds(ob, j + 1, h);
        assert(cur.at(x, y) == prev.removed_up_at(j, 0, prev.width as int, false, x, y));
        if y < h - 1 && 0 <= x < prev.width {
            assert(prev.at(x, y + 1) is None);
        } else if y < h - 1 {
            assert(prev.at(x, y) is None);
        }
    }
    assert forall|x: int, y: int| j - 1 < y < h && (#[trigger] cur.at(x, y)) is Some implies exists|r: int|
        j - 1 < r < h && !ob.row_full(r) && cur.at(x, y) == land_opt(#[trigger] ob.at(x, r)) by {
        assert(cur.at(x, y) == prev.removed_up_at(j, 0, prev.width as int, false, x, y));
        assert(0 <= x < prev.width);
        assert(y < h - 1);
        assert(cur.at(x, y) == prev.at(x, y + 1));
        assert(prev.at(x, y + 1) is Some);
        let r = choose|r: int| j < r < h && !ob.row_full(r) && prev.at(x, y + 1) == land_opt(#[trigger] ob.at(x, r));
        assert(cur.at(x, y) == land_opt(ob.at(x, r)));
    }
    assert forall|y: int| j - 1 < y < h implies !#[trigger] cur.row_full(y) by {
        if y < h - 1 {
            assert(!prev.row_full(y + 1));
            let x = choose|x: int| 0 <= x < prev.width && !(#[trigger] prev.at(x, y + 1) is Some);
            assert(cur.at(x, y) == prev.removed_up_at(j, 0, prev.width as int, false, x, y));
            assert(cur.at(x, y) is None);
        } else {
            assert(cur.at(0, y) == prev.removed_up_at(j, 0, prev.width as int, false, 0, y));
            assert(cur.at(0, y) is None);
        }
    }
}

/// A processed row scanned again on a flipped board: landing it again
/// changes nothing, and any smiley left in it was already counted.
#[verifier::spinoff_prover]
#[verifier::rlimit(60)]
proof fn lemma_flip_rescan_step(prev: &Board, cur: &Board, ob: &Board, p: int, lines: int, value: int)
    requires
        prev.flip_inv(ob, p, lines, value),
        0 <= p + 1 < ob.height,
        prev.width == ob.width,
        prev.height == ob.height,
        ob.width >= 1,
        forall|x: int, y: int| #[trigger] cur.at(x, y) == if y == p + 1 { land_opt(prev.at(x, y)) } else { prev.at(x, y) },
        cur.width == prev.width,
        cur.height == prev.height,
        cur.idiot == (prev.idiot || prev.smiley_in(p + 1)),
        cur.reason == if prev.smiley_in(p + 1) { BT_MISSED_SMILEY } else { prev.reason },
    ensures
        cur.flip_inv(ob, p, lines, value),
{
    let h = ob.height as int;
    let j = p + 1;
    assert forall|x: int, y: int| y == j && (#[trigger] prev.at(x, y)) is Some implies land_opt(prev.at(x, y)) == prev.at(x, y) by {
        let r = choose|r: int| p < r < h && !ob.row_full(r) && prev.at(x, y) == land_opt(#[trigger] ob.at(x, r));
        let c = ob.at(x, r).unwrap();
        assert(landed_spec(landed_spec(c)) == landed_spec(c));
    }
    assert forall|x: int, y: int| #[trigger] cur.at(x, y) == prev.at(x, y) by {
        if y == j && prev.at(x, y) is Some {
        }
    }
    assert forall|y: int| p < y < h implies !#[trigger] cur.row_full(y) by {
        assert(!prev.row_full(y));
        let x = choose|x: int| 0 <= x < prev.width && !(#[trigger] prev.at(x, y) is Some);
        assert(cur.at(x, y) == prev.at(x, y));
    }
    if prev.smiley_in(j) {
        let x = choose|x: int| 0 <= x < prev.width && ((#[trigger] prev.at(x, j)) matches Some(c) && c.value() == BT_HAPPY_VAL);
        let r = choose|r: int| p < r < h && !ob.row_full(r) && prev.at(x, j) == land_opt(#[trigger] ob.at(x, r));
        let c0 = ob.at(x, r).unwrap();
        assert(c0.value() == BT_HAPPY_VAL);
        assert(ob.smiley_in(r));
        assert(ob.missed_smiley(p + 1, h));
    }
}

/// One step of the line scan under Bottle from board `b` at row `j` to board
/// `b1` at row `j1`: a full row is removed as [`Board::bottle_cleared_at`]
/// says and scanned again (under The Force the scan moves up a row instead);
/// any other row has its smileys landed, raising the missed-smiley signal, and
/// the scan moves up a row.
pub open spec fn bottle_step(b: Board, j: int, b1: Board, j1: int) -> bool {
    &&& 0 <= j < b.height
    &&& b1.width == b.width
    &&& b1.height == b.height
    &&& if b.row_full(j) {
        &&& j1 == if b.flag(WeaponToken::Force) { j - 1 } else { j }
        &&& forall|x: int, y: int| #[trigger] b1.at(x, y) == b.bottle_cleared_at(j, x, y)
        &&& b1.idiot == b.idiot
        &&& b1.reason == b.reason
    } else {
        &&& j1 == j - 1
        &&& forall|x: int, y: int| #[trigger] b1.at(x, y) == if y == j { land_opt(b.at(x, y)) } else { b.at(x, y) }
        &&& b1.idiot == (b.idiot || b.smiley_in(j))
        &&& b1.reason == if b.smiley_in(j) { BT_MISSED_SMILEY } else { b.reason }
    }
}

/// How many of the first `n` steps of a scan run removed a row.
pub open spec fn run_lines(run: Seq<Board>, js: Seq<int>, n: int) -> int
    decreases n,
{
    if n <= 0 {
        0
    } else {
        run_lines(run, js, n - 1) + if run[n - 1].row_full(js[n - 1]) { 1int } else { 0int }
    }
}

/// The total value of the rows the first `n` steps of a scan run removed.
pub open spec fn run_value(run: Seq<Board>, js: Seq<int>, n: int) -> int
    decreases n,
{
    if n <= 0 {
        0
    } else {
        run_value(run, js, n - 1) + if run[n - 1].row_full(js[n - 1]) { run[n - 1].row_value(js[n - 1]) } else { 0int }
    }
}

/// The tallies of a run's first `n` steps depend on those steps alone.
proof fn lemma_run_prefix(run: Seq<Board>, js: Seq<int>, run2: Seq<Board>, js2: Seq<int>, n: int)
    requires
        0 <= n <= run.len(),
        n <= js.len(),
        n <= run2.len(),
        n <= js2.len(),
        forall|k: int| 0 <= k < n ==> run[k] == run2[k] && js[k] == js2[k],
    ensures
        run_lines(run, js, n) == run_lines(run2, js2, n),
        run_value(run, js, n) == run_value(run2, js2, n),
    decreases n,
{
    if n > 0 {
        lemma_run_prefix(run, js, run2, js2, n - 1);
    }
}

impl Board {
    /// `run` and `js` are the boards and rows of the line scan under Bottle of
    /// this board: it starts here at the last row, every step is a
    /// [`bottle_step`], and it ends above row 0 or after `scan_budget()` steps.
    pub open spec fn scan_run(&self, run: Seq<Board>, js: Seq<int>) -> bool {
        &&& run.len() == js.len()
        &&& run.len() >= 1
        &&& run[0] == *self
        &&& js[0] == self.height - 1
        &&& forall|k: int| 0 <= k < run.len() - 1 ==> #[trigger] bottle_step(run[k], js[k], run[k + 1], js[k + 1])
        &&& run.len() - 1 <= self.scan_budget()
        &&& (js.last() == -1 || run.len() - 1 == self.scan_budget())
    }
}

/// A step of the scan under Bottle moves, lands or empties boxes: every box
/// stays worth 0 to 255.
proof fn lemma_bottle_step_values(b: Board, j: int, b1: Board, j1: int)
    requires
        bottle_step(b, j, b1, j1),
        b.values_ok(),
    ensures
        b1.values_ok(),
{
    assert forall|x: int, y: int| ((#[trigger] b1.at(x, y)) matches Some(c) ==> 0 <= c.value() <= 255) by {
        assert(b.at(x, y - 1) matches Some(c) ==> 0 <= c.value() <= 255);
        assert(b.at(x, y) matches Some(c) ==> 0 <= c.value() <= 255);
        assert(b.at(x, y + 1) matches Some(c) ==> 0 <= c.value() <= 255);
        if b.row_full(j) {
            assert(b1.at(x, y) == b.bottle_cleared_at(j, x, y));
        } else {
            assert(b1.at(x, y) == if y == j { land_opt(b.at(x, y)) } else { b.at(x, y) });
        }
    }
}

/// Along the first `n` steps of a scan run from a board whose boxes are worth
/// 0 to 255, the boxes stay so, at most one line is removed per step and the
/// value removed is at most 255 per square of each line.
proof fn lemma_run_bounded(run: Seq<Board>, js: Seq<int>, n: int)
    requires
        0 <= n < run.len(),
        n < js.len(),
        run[0].values_ok(),
        run[0].width >= 0,
        forall|k: int| 0 <= k < n ==> #[trigger] bottle_step(run[k], js[k], run[k + 1], js[k + 1]),
    ensures
        run[n].values_ok(),
        run[n].width == run[0].width,
        0 <= run_lines(run, js, n) <= n,
        0 <= run_value(run, js, n) <= run_lines(run, js, n) * (run[0].width * 255),
    decreases n,
{
    if n > 0 {
        lemma_run_bounded(run, js, n - 1);
        let k = n - 1;
        assert(bottle_step(run[k], js[k], run[k + 1], js[k + 1]));
        assert(k + 1 == n);
        lemma_bottle_step_values(run[k], js[k], run[n], js[n]);
        let b = run[n - 1];
        let w = run[0].width as int;
        let l0 = run_lines(run, js, n - 1);
        let v0 = run_value(run, js, n - 1);
        if b.row_full(js[n - 1]) {
            lemma_row_value_bounds(&b, js[n - 1], b.width as int);
            assert(v0 + b.row_value(js[n - 1]) <= (l0 + 1) * (w * 255)) by (nonlinear_arith)
                requires
                    v0 <= l0 * (w * 255),
                    b.row_value(js[n - 1]) <= w * 255,
            ;
        }
    }
}

/// Boxes worth 0 to 255 on a board of bounded size keep the line check's
/// tally within `i32`.
pub proof fn lemma_tally_bounded(b: Board)
    requires
        b.width >= 1,
        b.height >= 0,
        b.tally_bounded(),
    ensures
        b.tally_fits(),
{
    let h = b.height as int;
    let w = b.width as int;
    let room = b.tally_room();
    assert(room >= h) by (nonlinear_arith)
        requires
            room == h || room == h * h + 2 * h + 2,
            h >= 0,
    ;
    if b.flag(WeaponToken::Bottle) {
        assert forall|run: Seq<Board>, js: Seq<int>| #[trigger] b.scan_run(run, js) implies {
            let n = run.len() - 1;
            &&& run_lines(run, js, n) <= i32::MAX
            &&& i32::MIN <= run_value(run, js, n) <= i32::MAX
            &&& i32::MIN <= run_value(run, js, n) * run_lines(run, js, n) <= i32::MAX
        } by {
            let n = run.len() - 1;
            lemma_run_bounded(run, js, n);
            let l = run_lines(run, js, n);
            let v = run_value(run, js, n);
            assert(n <= room);
            assert(v * l <= room * room * (w * 255)) by (nonlinear_arith)
                requires
                    0 <= l <= n,
                    n <= room,
                    0 <= v <= l * (w * 255),
                    w >= 0,
            ;
            assert(0 <= v * l) by (nonlinear_arith)
                requires
                    0 <= l,
                    0 <= v,
            ;
            assert(l <= i32::MAX) by (nonlinear_arith)
                requires
                    0 <= l <= room,
                    room * room * (w * 255) <= i32::MAX,
                    w >= 1,
            ;
            assert(v <= i32::MAX) by (nonlinear_arith)
                requires
                    0 <= v <= l * (w * 255),
                    0 <= l <= room,
                    room * room * (w * 255) <= i32::MAX,
                    w >= 0,
            ;
        }
    } else {
        lemma_full_value_bounds(&b, 0, h);
        lemma_full_count_bounds(&b, 0, h);
        let v = b.full_value(0, h);
        let l = b.full_count(0, h);
        assert(0 <= v * l <= room * room * (w * 255) && v <= room * room * (w * 255)) by (nonlinear_arith)
            requires
                0 <= l <= h,
                h <= room,
                0 <= v <= h * (w * 255),
                w >= 0,
        ;
    }
}

/// How many of the first `n` squares of column `x` hold a box.
pub open spec fn col_count(b: Board, x: int, n: int) -> int
    decreases n,
{
    if n <= 0 {
        0
    } else {
        col_count(b, x, n - 1) + if b.at(x, n - 1) is Some { 1int } else { 0int }
    }
}

proof fn lemma_col_count_bounds(b: Board, x: int, n: int)
    requires
        0 <= n,
    ensures
        0 <= col_count(b, x, n) <= n,
    decreases n,
{
    if n > 0 {
        lemma_col_count_bounds(b, x, n - 1);
    }
}

/// A column whose boxes are among another's holds no more of them.
proof fn lemma_col_count_fewer(a: Board, b: Board, x: int, n: int)
    requires
        forall|y: int| 0 <= y < n ==> (#[trigger] a.at(x, y) is Some ==> b.at(x, y) is Some),
    ensures
        col_count(a, x, n) <= col_count(b, x, n),
    decreases n,
{
    if n > 0 {
        lemma_col_count_fewer(a, b, x, n - 1);
        assert(a.at(x, n - 1) is Some ==> b.at(x, n - 1) is Some);
    }
}

/// A column that loses square `line` as the squares above it drop one (an
/// empty square entering at row 0) holds one box fewer when `line` held one.
proof fn lemma_col_count_down(a: Board, b: Board, x: int, line: int, n: int)
    requires
        0 <= line,
        1 <= n,
        forall|y: int| 0 <= y < n ==> (#[trigger] a.at(x, y) is Some) == if y == 0 {
            false
        } else if y <= line {
            b.at(x, y - 1) is Some
        } else {
            b.at(x, y) is Some
        },
    ensures
        n <= line + 1 ==> col_count(a, x, n) == col_count(b, x, n - 1),
        n > line + 1 ==> col_count(a, x, n) + (if b.at(x, line) is Some { 1int } else { 0int }) == col_count(b, x, n),
    decreases n,
{
    if n > 1 {
        lemma_col_count_down(a, b, x, line, n - 1);
        assert(a.at(x, n - 1) is Some == if n - 1 <= line { b.at(x, n - 2) is Some } else { b.at(x, n - 1) is Some });
        assert(col_count(a, x, n) == col_count(a, x, n - 1) + (if a.at(x, n - 1) is Some { 1int } else { 0int }));
        assert(col_count(b, x, n) == col_count(b, x, n - 1) + (if b.at(x, n - 1) is Some { 1int } else { 0int }));
        assert(col_count(b, x, n - 1) == col_count(b, x, n - 2) + (if b.at(x, n - 2) is Some { 1int } else { 0int }));
    } else {
        assert(!(a.at(x, 0) is Some));
        assert(col_count(a, x, 1) == col_count(a, x, 0) + (if a.at(x, 0) is Some { 1int } else { 0int }));
    }
}

/// A column that loses square `line` as the squares below it rise one (an
/// empty square entering at the last row `h - 1`) holds one box fewer when
/// `line` held one.
proof fn lemma_col_count_up(a: Board, b: Board, x: int, line: int, h: int, n: int)
    requires
        0 <= line < h,
        0 <= n <= h,
        forall|y: int| 0 <= y < h ==> (#[trigger] a.at(x, y) is Some) == if y < line {
            b.at(x, y) is Some
        } else if y < h - 1 {
            b.at(x, y + 1) is Some
        } else {
            false
        },
    ensures
        n <= line ==> col_count(a, x, n) == col_count(b, x, n),
        line < n < h ==> col_count(a, x, n) + (if b.at(x, line) is Some { 1int } else { 0int }) == col_count(b, x, n + 1),
        n == h ==> col_count(a, x, n) + (if b.at(x, line) is Some { 1int } else { 0int }) == col_count(b, x, n),
    decreases n,
{
    if n > 0 {
        lemma_col_count_up(a, b, x, line, h, n - 1);
        assert(a.at(x, n - 1) is Some == if n - 1 < line { b.at(x, n - 1) is Some } else if n - 1 < h - 1 {
            b.at(x, n) is Some
        } else {
            false
        });
        assert(col_count(a, x, n) == col_count(a, x, n - 1) + (if a.at(x, n - 1) is Some { 1int } else { 0int }));
        assert(col_count(b, x, n) == col_count(b, x, n - 1) + (if b.at(x, n - 1) is Some { 1int } else { 0int }));
        assert(col_count(b, x, n + 1) == col_count(b, x, n) + (if b.at(x, n) is Some { 1int } else { 0int }));
    }
}

/// Each step of the scan under Bottle, on a board wide enough for the
/// bottle's neck, lowers the row still to scan plus the boxes of the neck's
/// first column.
proof fn lemma_bottle_step_progress(b: Board, j: int, b1: Board, j1: int)
    requires
        bottle_step(b, j, b1, j1),
        b.width > 2 * BT_BOTTLE_X,
    ensures
        -1 <= j1,
        j1 + 1 + col_count(b1, BT_BOTTLE_X as int, b.height as int) < j + 1 + col_count(b, BT_BOTTLE_X as int, b.height as int),
{
    let x = BT_BOTTLE_X as int;
    let h = b.height as int;
    if b.row_full(j) {
        assert(b.at(x, j) is Some);
        if b.flag(WeaponToken::Force) {
            assert forall|y: int| 0 <= y < h implies (#[trigger] b1.at(x, y) is Some ==> b.at(x, y) is Some) by {
                assert(b1.at(x, y) == b.bottle_cleared_at(j, x, y));
            }
            lemma_col_count_fewer(b1, b, x, h);
        } else if b.removes_up() {
            assert forall|y: int| 0 <= y < h implies (#[trigger] b1.at(x, y) is Some) == if y < j {
                b.at(x, y) is Some
            } else if y < h - 1 {
                b.at(x, y + 1) is Some
            } else {
                false
            } by {
                assert(b1.at(x, y) == b.bottle_cleared_at(j, x, y));
            }
            lemma_col_count_up(b1, b, x, j, h, h);
        } else {
            assert forall|y: int| 0 <= y < h implies (#[trigger] b1.at(x, y) is Some) == if y == 0 {
                false
            } else if y <= j {
                b.at(x, y - 1) is Some
            } else {
                b.at(x, y) is Some
            } by {
                assert(b1.at(x, y) == b.bottle_cleared_at(j, x, y));
            }
            lemma_col_count_down(b1, b, x, j, h);
        }
    } else {
        assert forall|y: int| 0 <= y < h implies (#[trigger] b1.at(x, y) is Some ==> b.at(x, y) is Some) by {
            assert(b1.at(x, y) == if y == j { land_opt(b.at(x, y)) } else { b.at(x, y) });
        }
        lemma_col_count_fewer(b1, b, x, h);
    }
}

/// The first `n` steps of a scan run under Bottle, on a board wide enough for
/// the bottle's neck, each lower the row still to scan plus the boxes of the
/// neck's first column.
proof fn lemma_run_progress(run: Seq<Board>, js: Seq<int>, n: int)
    requires
        0 <= n < run.len(),
        n < js.len(),
        js[0] == run[0].height - 1,
        run[0].height >= 0,
        run[0].width > 2 * BT_BOTTLE_X,
        forall|k: int| 0 <= k < n ==> #[trigger] bottle_step(run[k], js[k], run[k + 1], js[k + 1]),
    ensures
        run[n].width == run[0].width,
        run[n].height == run[0].height,
        -1 <= js[n],
        n + js[n] + 1 + col_count(run[n], BT_BOTTLE_X as int, run[0].height as int) <= run[0].height + col_count(
            run[0],
            BT_BOTTLE_X as int,
            run[0].height as int,
        ),
    decreases n,
{
    if n > 0 {
        lemma_run_progress(run, js, n - 1);
        let k = n - 1;
        assert(bottle_step(run[k], js[k], run[k + 1], js[k + 1]));
        assert(k + 1 == n);
        lemma_bottle_step_progress(run[k], js[k], run[n], js[n]);
    }
}

/// On a board wide enough for the bottle's neck, the line scan under Bottle
/// always ends above row 0, within twice the board's height in steps: its
/// step budget never stops it.
pub proof fn lemma_bottle_scan_ends(b: Board, run: Seq<Board>, js: Seq<int>)
    requires
        b.width > 2 * BT_BOTTLE_X,
        b.height >= 0,
        b.scan_run(run, js),
    ensures
        js.last() == -1,
        run.len() - 1 <= 2 * b.height,
{
    let n = run.len() - 1;
    let h = b.height as int;
    lemma_run_progress(run, js, n);
    lemma_col_count_bounds(run[n], BT_BOTTLE_X as int, h);
    lemma_col_count_bounds(b, BT_BOTTLE_X as int, h);
    assert(b.scan_budget() > 2 * h) by (nonlinear_arith)
        requires
            b.scan_budget() == h * h + 2 * h + 2,
            h >= 0,
    ;
}

impl Board {
    /// What a finished plain scan leaves, relative to the board `ob` it started
    /// from: the tally covers all full rows, every other row has dropped by the
    /// number of full rows beneath it with its smileys landed, the top rows are
    /// empty, and the missed-smiley signal is raised.
    pub open spec fn scan_done(&self, ob: &Board, lines: int, value: int) -> bool {
        let h = ob.height as int;
        &&& lines == ob.full_count(0, h)
        &&& value == ob.full_value(0, h)
        &&& forall|x: int, y: int|
            0 <= y < h && !ob.row_full(y) ==> self.at(x, y + ob.full_count(y + 1, h)) == land_opt(#[trigger] ob.at(x, y))
        &&& forall|x: int, y: int| y < ob.full_count(0, h) ==> (#[trigger] self.at(x, y)) is None
        &&& self.idiot == (ob.idiot || ob.missed_smiley(0, h))
        &&& self.reason == if ob.missed_smiley(0, h) { BT_MISSED_SMILEY } else { ob.reason }
    }
}

proof fn lemma_scan_done(cur: &Board, ob: &Board, lines: int, value: int)
    requires
        cur.scan_inv(ob, -1, lines, value),
        cur.width == ob.width,
        cur.height == ob.height,
        ob.height >= 0,
    ensures
        cur.scan_done(ob, lines, value),
{
    assert forall|x: int, y: int| y < ob.full_count(0, ob.height as int) implies (#[trigger] cur.at(x, y)) is None by {
        if 0 <= y < cur.height && 0 <= x < cur.width {
            assert(-1 < y);
        }
    }
}

/// The squares of a finished scan stay put while only the idiot signal changes.
proof fn lemma_scan_done_moved(mid: &Board, cur: &Board, ob: &Board, lines: int, value: int)
    requires
        mid.scan_done(ob, lines, value),
        cur.width == mid.width,
        cur.height == mid.height,
        cur.grid() == mid.grid(),
    ensures
        forall|x: int, y: int|
            0 <= y < ob.height && !ob.row_full(y) ==> cur.at(x, y + ob.full_count(y + 1, ob.height as int)) == land_opt(
                #[trigger] ob.at(x, y),
            ),
        forall|x: int, y: int| y < ob.full_count(0, ob.height as int) ==> (#[trigger] cur.at(x, y)) is None,
{
    assert forall|x: int, y: int| y < ob.full_count(0, ob.height as int) implies (#[trigger] cur.at(x, y)) is None by {
        assert(mid.at(x, y) is None);
    }
    assert forall|x: int, y: int|
        0 <= y < ob.height && !ob.row_full(y) implies cur.at(x, y + ob.full_count(y + 1, ob.height as int)) == land_opt(
            #[trigger] ob.at(x, y),
        ) by {
        assert(mid.at(x, y + ob.full_count(y + 1, ob.height as int)) == land_opt(ob.at(x, y)));
    }
}

impl Board {

    fn row_has_cell(&self, y: i32) -> (b: bool)
        requires
            self.wf(),
        ensures
            b == self.row_nonempty(y as int),
    {
        let mut i: i32 = 0;
        while i < self.width
            invariant
                self.wf(),
                0 <= i <= self.width,
                forall|x: int| 0 <= x < i ==> (#[trigger] self.at(x, y as int)) is None,
            decreases self.width - i,
        {
            if self.get(i, y).is_some() {
                return true;
            }
            i = i + 1;
        }
        false
    }

    fn row_scan(&self, y: i32) -> (r: (bool, i64))
        requires
            self.wf(),
            0 <= y < self.height,
        ensures
            r.0 == self.row_full(y as int),
            r.0 ==> r.1 == self.row_value(y as int),
            -r.1 <= self.width * 0x8000_0000 && r.1 <= self.width * 0x8000_0000,
    {
        let mut nvalue: i64 = 0;
        let mut i: i32 = 0;
        while i < self.width
            invariant
                self.wf(),
                0 <= y < self.height,
                0 <= i <= self.width,
                forall|x: int| 0 <= x < i ==> (#[trigger] self.at(x, y as int)) is Some,
                nvalue == self.row_value_upto(y as int, i as int),
                -nvalue <= i * 0x8000_0000 && nvalue <= i * 0x8000_0000,
            decreases self.width - i,
        {
            match self.get(i, y) {
                Some(c) => {
                    let v = c.value();
                    assert(-(nvalue + v) <= (i + 1) * 0x8000_0000 && nvalue + v <= (i + 1) * 0x8000_0000) by (nonlinear_arith)
                        requires
                            -nvalue <= i * 0x8000_0000 && nvalue <= i * 0x8000_0000,
                            i32::MIN <= v <= i32::MAX,
                    ;
                    assert((i + 1) * 0x8000_0000 <= 0x8000_0000 * 0x8000_0000) by (nonlinear_arith)
                        requires
                            i + 1 <= i32::MAX,
                    ;
                    nvalue = nvalue + v as i64;
                    i = i + 1;
                },
                None => {
                    assert(self.width * 0x8000_0000 >= i * 0x8000_0000) by (nonlinear_arith)
                        requires
                            i <= self.width,
                    ;
                    return (false, nvalue);
                },
            }
        }
        (true, nvalue)
    }

    /// Land the smileys of row `j`: each becomes a frown and raises the
    /// missed-smiley signal.
    fn land_row(&mut self, j: i32)
        requires
            old(self).wf(),
            0 <= j < old(self).height,
        ensures
            final(self).wf(),
            final(self).width == old(self).width,
            final(self).height == old(self).height,
            final(self).active == old(self).active,
            final(self).upside == old(self).upside,
            final(self).computer == old(self).computer,
            final(self).fresh() == old(self).fresh(),
            forall|x: int, y: int| #[trigger] final(self).at(x, y) == if y == j { land_opt(old(self).at(x, y)) } else { old(self).at(x, y) },
            final(self).idiot == (old(self).idiot || old(self).smiley_in(j as int)),
            final(self).reason == if old(self).smiley_in(j as int) { BT_MISSED_SMILEY } else { old(self).reason },
    {
        let mut i2: i32 = 0;
        while i2 < self.width
            invariant
                self.wf(),
                0 <= j < self.height,
                0 <= i2 <= self.width,
                self.width == old(self).width,
                self.height == old(self).height,
                self.active == old(self).active,
                self.upside == old(self).upside,
                self.computer == old(self).computer,
                self.fresh() == old(self).fresh(),
                forall|x: int, y: int| #[trigger] self.at(x, y) == if y == j && x < i2 {
                    land_opt(old(self).at(x, y))
                } else {
                    old(self).at(x, y)
                },
                self.idiot == (old(self).idiot || exists|x: int|
                    0 <= x < i2 && ((#[trigger] old(self).at(x, j as int)) matches Some(c) && c.value() == BT_HAPPY_VAL)),
                self.reason == if exists|x: int|
                    0 <= x < i2 && ((#[trigger] old(self).at(x, j as int)) matches Some(c) && c.value() == BT_HAPPY_VAL) {
                    BT_MISSED_SMILEY
                } else {
                    old(self).reason
                },
            decreases self.width - i2,
        {
            let ghost before = *self;
            let cur = self.get(i2, j);
            assert(cur == old(self).at(i2 as int, j as int));
            match cur {
                Some(c) => {
                    if c.value() == BT_HAPPY_VAL {
                        let mut c2 = c;
                        c2.landed();
                        self.idiot = true;
                        self.reason = BT_MISSED_SMILEY;
                        let ghost mid = *self;
                        self.set(i2, j, Some(c2));
                        assert(mid.at(i2 as int, j as int) == before.at(i2 as int, j as int));
                    } else {
                        assert(landed_spec(c) == c);
                    }
                },
                None => {},
            }
            proof {
                assert forall|x: int, y: int| #[trigger] self.at(x, y) == if y == j && x < i2 + 1 {
                    land_opt(old(self).at(x, y))
                } else {
                    old(self).at(x, y)
                } by {
                    assert(before.at(x, y) == if y == j && x < i2 {
                        land_opt(old(self).at(x, y))
                    } else {
                        old(self).at(x, y)
                    });
                    if !(x == i2 && y == j) {
                        assert(self.at(x, y) == before.at(x, y));
                    }
                }
            }
            i2 = i2 + 1;
        }
        assert forall|x: int, y: int| #[trigger] self.at(x, y) == if y == j { land_opt(old(self).at(x, y)) } else { old(self).at(x, y) } by {
            if y == j && !(0 <= x < self.width) {
                assert(old(self).at(x, y) is None);
            }
        }
    }

    /// What a line check starting from board `o` leaves here with result `r`:
    /// funds are `value * lines`; nothing is owed without a line; a cleared line
    /// drops the idiot signal. On a plain board (no Bottle, no Force, not
    /// flipped) every full row is removed and tallied, each other row drops by
    /// the number of full rows beneath it with its smileys landed, the top rows
    /// empty, and the idiot signal and reason follow the near-death gauge and
    /// the missed smileys.
    pub open spec fn lines_cleared(&self, o: &Board, r: LineClear) -> bool {
        let h = o.height as int;
        &&& r.lines >= 0
        &&& r.funds == r.value * r.lines
        &&& r.lines == 0 ==> r.value == 0 && r.funds == 0
        &&& r.lines > 0 ==> !self.idiot
        &&& o.flag(WeaponToken::Bottle) ==> (r.lines > 0 <==> exists|y: int| 0 <= y < h && #[trigger] o.row_full(y))
        &&& o.flag(WeaponToken::Bottle) ==> exists|run: Seq<Board>, js: Seq<int>|
            #[trigger] o.scan_run(run, js) && (forall|x: int, y: int| #[trigger] self.at(x, y) == run.last().at(x, y))
                && r.lines == run_lines(run, js, run.len() - 1) && r.value == run_value(run, js, run.len() - 1)
                && self.idiot == (r.lines == 0 && (run.last().idiot || o.stack_top() < 8)) && self.reason == if o.stack_top()
                < 8 {
                BT_NEAR_DEATH
            } else {
                run.last().reason
            }
        &&& o.plain_removal() && !o.flag(WeaponToken::Force) ==> {
            &&& r.lines == o.full_count(0, h)
            &&& r.value == o.full_value(0, h)
            &&& forall|x: int, y: int|
                0 <= y < h && !o.row_full(y) ==> self.at(x, y + o.full_count(y + 1, h)) == land_opt(#[trigger] o.at(x, y))
            &&& forall|x: int, y: int| y < o.full_count(0, h) ==> (#[trigger] self.at(x, y)) is None
            &&& self.idiot == (r.lines == 0 && (o.idiot || o.missed_smiley(0, h) || o.stack_top() < 8))
            &&& self.reason == if o.stack_top() < 8 {
                BT_NEAR_DEATH
            } else if o.missed_smiley(0, h) {
                BT_MISSED_SMILEY
            } else {
                o.reason
            }
        }
        &&& o.flipped_removal() && !o.flag(WeaponToken::Force) ==> {
            &&& r.lines == o.full_count(0, h)
            &&& r.value == o.full_value(0, h)
            &&& forall|x: int, y: int|
                0 <= y < h && !o.row_full(y) ==> self.at(x, y - o.full_count(0, y)) == land_opt(#[trigger] o.at(x, y))
            &&& forall|x: int, y: int| h - o.full_count(0, h) <= y < h ==> (#[trigger] self.at(x, y)) is None
            &&& self.idiot == (r.lines == 0 && (o.idiot || o.missed_smiley(0, h) || o.stack_top() < 8))
            &&& self.reason == if o.stack_top() < 8 {
                BT_NEAR_DEATH
            } else if o.missed_smiley(0, h) {
                BT_MISSED_SMILEY
            } else {
                o.reason
            }
        }
        &&& (o.plain_removal() || o.flipped_removal()) && o.flag(WeaponToken::Force) ==> {
            &&& r.lines == o.full_count(0, h)
            &&& r.value == o.full_value(0, h)
            &&& forall|x: int, y: int| 0 <= y < h ==> #[trigger] self.at(x, y) == o.force_cleared(x, y)
            &&& self.idiot == (r.lines == 0 && (o.idiot || o.missed_smiley(0, h) || o.stack_top() < 8))
            &&& self.reason == if o.stack_top() < 8 {
                BT_NEAR_DEATH
            } else if o.missed_smiley(0, h) {
                BT_MISSED_SMILEY
            } else {
                o.reason
            }
        }
    }

    /// The near-death gauge: the top of the unbroken run of non-empty rows
    /// reaching down to the floor.
    fn stack_gauge(&self) -> (min: i32)
        requires
            self.wf(),
        ensures
            min == self.stack_top(),
    {
        let mut min = self.height - 1;
        let mut j = self.height - 1;
        let mut done = false;
        while j > 0 && !done
            invariant
                self.wf(),
                -1 <= j <= self.height - 1,
                min == if j + 1 < self.height - 1 { j + 1 } else { self.height - 1 },
                done ==> self.stack_low(self.height - 1) == j + 1,
                !done ==> self.stack_low(self.height - 1) == self.stack_low(j as int),
            decreases j + (if done { 0int } else { 1int }),
        {
            if self.row_has_cell(j) {
                if j < min {
                    min = j;
                }
                j = j - 1;
            } else {
                done = true;
            }
        }
        min
    }

    /// Remove full row `j` during the line scan.
    fn scan_clear_row(&mut self, j: i32, Ghost(ob): Ghost<Board>, Ghost(p): Ghost<int>, lines: i64, value: i128, nvalue: i64)
        requires
            old(self).wf(),
            0 <= j < old(self).height,
            old(self).width >= 1,
            old(self).width == ob.width,
            old(self).height == ob.height,
            old(self).row_full(j as int),
            nvalue == old(self).row_value(j as int),
            (ob.plain_removal() && !ob.flag(WeaponToken::Force)) ==> old(self).scan_inv(&ob, j as int, lines as int, value as int),
            ((ob.plain_removal() || ob.flipped_removal()) && ob.flag(WeaponToken::Force)) ==> old(self).force_inv(&ob, j as int, lines as int, value as int),
            ob.flipped_removal() && !ob.flag(WeaponToken::Force) ==> (p == j || p == j - 1) && old(self).flip_inv(&ob, p, lines as int, value as int),
            old(self).active == ob.active,
            old(self).computer == ob.computer,
        ensures
            final(self).wf(),
            final(self).same_but_grid(old(self)),
            old(self).values_ok() ==> final(self).values_ok(),
            ((ob.plain_removal() || ob.flipped_removal()) && ob.flag(WeaponToken::Force)) ==> final(self).force_inv(&ob, j - 1, lines + 1, value + nvalue),
            (ob.plain_removal() && !ob.flag(WeaponToken::Force)) ==> final(self).scan_inv(&ob, j as int, lines + 1, value + nvalue),
            (ob.plain_removal() && !ob.flag(WeaponToken::Force)) ==> lines + 1 == ob.full_count(
                if j + 1 - (lines + 1) > 0 { j + 1 - (lines + 1) } else { 0 },
                ob.height as int,
            ),
            ob.flipped_removal() && !ob.flag(WeaponToken::Force) ==> p == j && final(self).flip_inv(&ob, j - 1, lines + 1, value + nvalue),
            ob.flag(WeaponToken::Bottle) ==> forall|x: int, y: int| #[trigger] final(self).at(x, y) == old(self).bottle_cleared_at(j as int, x, y),
    {
        let ghost prev = *self;
        let w = self.width;
        self.remove_line(j, 0, w);
        proof {
            if prev.values_ok() {
                assert forall|x: int, y: int| ((#[trigger] self.at(x, y)) matches Some(c) ==> 0 <= c.value() <= 255) by {
                    if self.at(x, y) is Some {
                        let (x2, y2) = choose|x2: int, y2: int| prev.at(x2, y2) == self.at(x, y);
                        assert(prev.at(x2, y2) matches Some(c) ==> 0 <= c.value() <= 255);
                    }
                }
            }
            if ob.plain_removal() && !ob.flag(WeaponToken::Force) {
                assert(prev.plain_removal());
                lemma_scan_full_step(&prev, self, &ob, j as int, lines as int, value as int, nvalue as int);
            }
            if (ob.plain_removal() || ob.flipped_removal()) && ob.flag(WeaponToken::Force) {
                assert(prev.plain_removal() == ob.plain_removal() && prev.flipped_removal() == ob.flipped_removal());
                assert forall|x: int, y: int| #[trigger] self.at(x, y) == if y == j && j != ob.force_keep() && 0 <= x < prev.width {
                    None
                } else {
                    prev.at(x, y)
                } by {
                    if ob.plain_removal() {
                        assert(self.at(x, y) == prev.removed_at(j as int, 0, prev.width as int, true, x, y));
                    } else {
                        assert(self.at(x, y) == prev.removed_up_at(j as int, 0, prev.width as int, true, x, y));
                    }
                }
                lemma_force_full_step(&prev, self, &ob, j as int, lines as int, value as int, nvalue as int);
            }
            if ob.flipped_removal() && !ob.flag(WeaponToken::Force) {
                assert(p == j) by {
                    if p == j - 1 {
                        assert(!prev.row_full(j as int));
                    }
                }
                assert(prev.flipped_removal() && !prev.flag(WeaponToken::Force));
                lemma_flip_full_step(&prev, self, &ob, j as int, lines as int, value as int, nvalue as int);
            }
        }
    }

    /// Land the smileys of non-full row `j` during the line scan.
    fn scan_keep_row(&mut self, j: i32, Ghost(ob): Ghost<Board>, Ghost(p): Ghost<int>, lines: i64, value: i128)
        requires
            old(self).wf(),
            0 <= j < old(self).height,
            old(self).width >= 1,
            old(self).width == ob.width,
            old(self).height == ob.height,
            !old(self).row_full(j as int),
            (ob.plain_removal() && !ob.flag(WeaponToken::Force)) ==> old(self).scan_inv(&ob, j as int, lines as int, value as int),
            ((ob.plain_removal() || ob.flipped_removal()) && ob.flag(WeaponToken::Force)) ==> old(self).force_inv(&ob, j as int, lines as int, value as int),
            ob.flipped_removal() && !ob.flag(WeaponToken::Force) ==> (p == j || p == j - 1) && old(self).flip_inv(&ob, p, lines as int, value as int),
        ensures
            final(self).wf(),
            final(self).width == old(self).width,
            final(self).height == old(self).height,
            final(self).active == old(self).active,
            final(self).upside == old(self).upside,
            final(self).computer == old(self).computer,
            final(self).fresh() == old(self).fresh(),
            old(self).values_ok() ==> final(self).values_ok(),
            ((ob.plain_removal() || ob.flipped_removal()) && ob.flag(WeaponToken::Force)) ==> final(self).force_inv(&ob, j - 1, lines as int, value as int),
            (ob.plain_removal() && !ob.flag(WeaponToken::Force)) ==> final(self).scan_inv(&ob, j - 1, lines as int, value as int),
            ob.flipped_removal() && !ob.flag(WeaponToken::Force) ==> final(self).flip_inv(&ob, j - 1, lines as int, value as int),
            forall|x: int, y: int| (#[trigger] final(self).at(x, y)) is Some == old(self).at(x, y) is Some,
            forall|x: int, y: int| #[trigger] final(self).at(x, y) == if y == j { land_opt(old(self).at(x, y)) } else { old(self).at(x, y) },
            final(self).idiot == (old(self).idiot || old(self).smiley_in(j as int)),
            final(self).reason == if old(self).smiley_in(j as int) { BT_MISSED_SMILEY } else { old(self).reason },
    {
        let ghost prev = *self;
        self.land_row(j);
        proof {
            if prev.values_ok() {
                assert forall|x: int, y: int| ((#[trigger] self.at(x, y)) matches Some(c) ==> 0 <= c.value() <= 255) by {
                    assert(prev.at(x, y) matches Some(c) ==> 0 <= c.value() <= 255);
                    if self.at(x, y) is Some && y == j {
                        assert(self.at(x, y) == land_opt(prev.at(x, y)));
                    }
                }
            }
            if ob.plain_removal() && !ob.flag(WeaponToken::Force) {
                lemma_scan_nonfull_step(&prev, self, &ob, j as int, lines as int, value as int);
            }
            if (ob.plain_removal() || ob.flipped_removal()) && ob.flag(WeaponToken::Force) {
                lemma_force_nonfull_step(&prev, self, &ob, j as int, lines as int, value as int);
            }
            if ob.flipped_removal() && !ob.flag(WeaponToken::Force) {
                if p == j {
                    lemma_flip_nonfull_step(&prev, self, &ob, j as int, lines as int, value as int);
                } else {
                    lemma_flip_rescan_step(&prev, self, &ob, p, lines as int, value as int);
                }
            }
        }
    }

    /// The bottom-up scan of `check_lines`: returns the number of lines cleared
    /// and their total value.
    #[verifier::spinoff_prover]
    #[verifier::rlimit(40)]
    fn scan_lines(&mut self) -> (r: (i64, i128))
        requires
            old(self).wf(),
            old(self).width >= 1,
        ensures
            final(self).wf(),
            final(self).width == old(self).width,
            final(self).height == old(self).height,
            final(self).active == old(self).active,
            final(self).upside == old(self).upside,
            final(self).computer == old(self).computer,
            final(self).fresh() == old(self).fresh(),
            old(self).values_ok() ==> final(self).values_ok(),
            0 <= r.0 <= old(self).scan_budget(),
            r.0 == 0 ==> r.1 == 0,
            (old(self).plain_removal() && !old(self).flag(WeaponToken::Force)) ==> final(self).scan_done(old(self), r.0 as int, r.1 as int),
            ((old(self).plain_removal() || old(self).flipped_removal()) && old(self).flag(WeaponToken::Force)) ==> final(self).force_inv(old(self), -1, r.0 as int, r.1 as int),
            (old(self).flipped_removal() && !old(self).flag(WeaponToken::Force)) ==> final(self).flip_inv(old(self), -1, r.0 as int, r.1 as int),
            old(self).flag(WeaponToken::Bottle) ==> (r.0 > 0 <==> exists|y: int| 0 <= y < old(self).height && #[trigger] old(self).row_full(y)),
            old(self).flag(WeaponToken::Bottle) ==> exists|run: Seq<Board>, js: Seq<int>|
                #[trigger] old(self).scan_run(run, js) && run.last() == *final(self) && r.0 == run_lines(run, js, run.len() - 1)
                    && r.1 == run_value(run, js, run.len() - 1),
    {
        let ghost ob = *self;
        let ghost mut run: Seq<Board> = seq![*self];
        let ghost mut js: Seq<int> = seq![self.height - 1];
        let force = self.is_active(WeaponToken::Force);
        let ghost plain = self.plain_removal() && !force;
        let ghost forced = (self.plain_removal() || self.flipped_removal()) && force;
        let ghost flip = self.flipped_removal() && !force;
        let ghost mut p: int = self.height - 1;
        let mut value: i128 = 0;
        let mut lines: i64 = 0;
        let w = self.width;
        let hh = self.height as u64;
        assert(hh * hh <= 0x4000_0000_0000_0000u64) by (nonlinear_arith)
            requires
                hh <= 0x8000_0000u64,
        ;
        let mut budget: u64 = hh * hh + 2 * hh + 2;
        let ghost b0 = budget as int;
        assert(b0 == ob.scan_budget());
        assert(b0 <= 0x4000_0001_0000_0002) by (nonlinear_arith)
            requires
                b0 == hh * hh + 2 * hh + 2,
                hh * hh <= 0x4000_0000_0000_0000,
                hh <= 0x8000_0000,
        ;
        let mut j = self.height - 1;
        proof {
            lemma_full_count_bounds(&ob, 0, ob.height as int);
        }
        while j >= 0 && budget > 0
            invariant
                self.wf(),
                self.width == ob.width,
                self.height == ob.height,
                self.active == ob.active,
                self.upside == ob.upside,
                self.computer == ob.computer,
                self.fresh() == ob.fresh(),
                ob.values_ok() ==> self.values_ok(),
                w == ob.width,
                ob.width >= 1,
                ob.wf(),
                b0 == ob.scan_budget(),
                b0 <= 0x4000_0001_0000_0002,
                1 <= w <= 0x8000_0000,
                0 <= budget <= b0,
                -1 <= j < self.height,
                force == ob.flag(WeaponToken::Force),
                plain == (ob.plain_removal() && !force),
                0 <= lines <= b0 - budget,
                -value <= lines * (w * 0x8000_0000) && value <= lines * (w * 0x8000_0000),
                plain ==> self.scan_inv(&ob, j as int, lines as int, value as int),
                plain ==> b0 - budget == (ob.height - 1 - j) + lines,
                plain ==> lines <= ob.height,
                forced == ((ob.plain_removal() || ob.flipped_removal()) && force),
                forced ==> self.force_inv(&ob, j as int, lines as int, value as int),
                forced ==> b0 - budget == ob.height - 1 - j,
                forced ==> lines <= ob.height,
                ob.flag(WeaponToken::Bottle) && lines == 0 ==> forall|x: int, y: int| (#[trigger] self.at(x, y)) is Some == ob.at(x, y) is Some,
                ob.flag(WeaponToken::Bottle) && lines == 0 ==> forall|y: int| j < y < ob.height ==> !#[trigger] ob.row_full(y),
                ob.flag(WeaponToken::Bottle) && lines == 0 ==> b0 - budget == ob.height - 1 - j,
                ob.flag(WeaponToken::Bottle) && lines > 0 ==> exists|y: int| 0 <= y < ob.height && #[trigger] ob.row_full(y),
                run.len() == js.len(),
                run.len() >= 1,
                run[0] == ob,
                js[0] == ob.height - 1,
                run.last() == *self,
                js.last() == j,
                run.len() - 1 == b0 - budget,
                ob.flag(WeaponToken::Bottle) ==> forall|k: int| 0 <= k < run.len() - 1 ==> #[trigger] bottle_step(run[k], js[k], run[k + 1], js[k + 1]),
                ob.flag(WeaponToken::Bottle) ==> lines == run_lines(run, js, run.len() - 1),
                ob.flag(WeaponToken::Bottle) ==> value == run_value(run, js, run.len() - 1),
                flip == (ob.flipped_removal() && !force),
                flip ==> self.flip_inv(&ob, p, lines as int, value as int),
                flip ==> (j == p || j == p + 1),
                flip ==> b0 - budget == (ob.height - 1 - p) + lines - (if j == p + 1 { 1int } else { 0int }),
                flip ==> lines <= ob.height - 1 - p,
            decreases budget,
        {
            let ghost prev = *self;
            let ghost j0 = j as int;
            let ghost lines0 = lines as int;
            let ghost value0 = value as int;
            budget = budget - 1;
            let (full, nvalue) = self.row_scan(j);
            if full {
                proof {
                    if ob.flag(WeaponToken::Bottle) && lines == 0 {
                        assert forall|x: int| 0 <= x < ob.width implies (#[trigger] ob.at(x, j as int)) is Some by {
                            assert(self.at(x, j as int) is Some);
                        }
                        assert(ob.row_full(j as int));
                    }
                }
                self.scan_clear_row(j, Ghost(ob), Ghost(p), lines, value, nvalue);
                proof {
                    if plain {
                        lemma_full_count_bounds(&ob, if j + 1 - (lines + 1) > 0 { j + 1 - (lines + 1) } else { 0 }, ob.height as int);
                    }
                    if forced || flip {
                        lemma_full_count_bounds(&ob, j as int, ob.height as int);
                    }
                    assert(lines + 1 <= b0);
                    assert(-(value + nvalue) <= (lines + 1) * (w * 0x8000_0000) && value + nvalue <= (lines + 1) * (w
                        * 0x8000_0000)) by (nonlinear_arith)
                        requires
                            -value <= lines * (w * 0x8000_0000) && value <= lines * (w * 0x8000_0000),
                            -nvalue <= w * 0x8000_0000 && nvalue <= w * 0x8000_0000,
                    ;
                    assert((lines + 1) * (w * 0x8000_0000) <= 0x4000_0001_0000_0002 * (0x8000_0000 * 0x8000_0000)) by (nonlinear_arith)
                        requires
                            0 <= lines + 1 <= 0x4000_0001_0000_0002,
                            1 <= w <= 0x8000_0000,
                    ;
                }
                lines = lines + 1;
                value = value + nvalue as i128;
                proof {
                    if flip {
                        p = j - 1;
                        lemma_full_count_bounds(&ob, p + 1, ob.height as int);
                    }
                }
                if !force {
                    j = j + 1;
                }
            } else {
                proof {
                    if ob.flag(WeaponToken::Bottle) && lines == 0 {
                        let x = choose|x: int| 0 <= x < self.width && !(#[trigger] self.at(x, j as int) is Some);
                        assert(!(ob.at(x, j as int) is Some));
                        assert(!ob.row_full(j as int));
                    }
                }
                self.scan_keep_row(j, Ghost(ob), Ghost(p), lines, value);
                proof {
                    if flip {
                        p = j - 1;
                        lemma_full_count_bounds(&ob, p + 1, ob.height as int);
                    }
                }
            }
            j = j - 1;
            proof {
                let n = run.len() as int;
                let run2 = run.push(*self);
                let js2 = js.push(j as int);
                if ob.flag(WeaponToken::Bottle) {
                    assert(bottle_step(prev, j0, *self, j as int)) by {
                        if prev.row_full(j0) {
                            assert(full);
                        } else {
                            assert(!full);
                        }
                    }
                    assert forall|k: int| 0 <= k < run2.len() - 1 implies #[trigger] bottle_step(run2[k], js2[k], run2[k + 1], js2[k + 1]) by {
                        if k < n - 1 {
                            assert(run2[k] == run[k] && run2[k + 1] == run[k + 1] && js2[k] == js[k] && js2[k + 1] == js[k + 1]);
                        } else {
                            assert(run2[k] == prev && js2[k] == j0);
                        }
                    }
                    lemma_run_prefix(run, js, run2, js2, n - 1);
                    assert(run2[n - 1] == prev && js2[n - 1] == j0);
                    assert(run_lines(run2, js2, n) == run_lines(run2, js2, n - 1) + if prev.row_full(j0) { 1int } else { 0int });
                    if full {
                        assert(value == value0 + prev.row_value(j0));
                    }
                }
                run = run2;
                js = js2;
            }
        }
        proof {
            if plain {
                assert(j == -1);
                lemma_scan_done(self, &ob, lines as int, value as int);
            }
            if forced {
                assert(j == -1);
            }
            if ob.flag(WeaponToken::Bottle) {
                assert(b0 > ob.height) by (nonlinear_arith)
                    requires
                        b0 == ob.height * ob.height + 2 * ob.height + 2,
                ;
                if lines == 0 {
                    assert(j == -1);
                    assert forall|y: int| 0 <= y < ob.height implies !#[trigger] ob.row_full(y) by {}
                }
            }
            if flip {
                assert(b0 > 2 * ob.height) by (nonlinear_arith)
                    requires
                        b0 == ob.height * ob.height + 2 * ob.height + 2,
                ;
                assert(j == -1);
                assert(p == -1);
            }
        }
        proof {
            if ob.flag(WeaponToken::Bottle) {
                assert(js.last() == -1 || run.len() - 1 == ob.scan_budget());
                assert(ob.scan_run(run, js));
            }
        }
        assert(lines == 0 ==> value == 0) by (nonlinear_arith)
            requires
                -value <= lines * (w * 0x8000_0000) && value <= lines * (w * 0x8000_0000),
        ;
        (lines, value)
    }

    /// Detect and clear full lines from the bottom up, tally their value, award
    /// funds `value * lines`, land the smileys of rows that were not cleared, and
    /// raise the idiot signal for a missed smiley or a dangerously high stack
    /// (dropped again when a line was cleared). On a plain board (no Bottle, no
    /// Force, not flipped) every full row is removed, each other row drops by the
    /// number of full rows beneath it, and empty rows fill the top; on a flipped
    /// board the rows close up toward row 0 and empty rows fill the bottom; under
    /// The Force full rows empty in place; under Bottle every step of the scan is
    /// a [`bottle_step`]: a full row is removed with the shift narrowed to the
    /// neck from the bottle's band on (see [`Board::bottle_cleared_at`]), and
    /// some line is cleared exactly when some row is full. The scan is cut off
    /// after `scan_budget()` steps, which only a board too narrow for the
    /// bottle's neck can reach (see [`lemma_bottle_scan_ends`]). The tally must
    /// fit in `i32` (see [`Board::tally_fits`]).
    pub fn check_lines(&mut self) -> (r: LineClear)
        requires
            old(self).wf(),
            old(self).width >= 1,
            old(self).tally_fits(),
        ensures
            final(self).wf(),
            final(self).width == old(self).width,
            final(self).height == old(self).height,
            final(self).active == old(self).active,
            final(self).upside == old(self).upside,
            final(self).computer == old(self).computer,
            final(self).fresh() == old(self).fresh(),
            old(self).values_ok() ==> final(self).values_ok(),
            r.lines <= old(self).scan_budget(),
            final(self).lines_cleared(old(self), r),
    {
        let min = self.stack_gauge();
        let ghost ob = *self;
        let (lines, value) = self.scan_lines();
        let ghost mid = *self;
        if min < 8 {
            self.set_idiot(BT_NEAR_DEATH);
        }
        if lines > 0 {
            self.flush_idiot();
        }
        proof {
            if ob.plain_removal() && !ob.flag(WeaponToken::Force) {
                lemma_scan_done_moved(&mid, self, &ob, lines as int, value as int);
            }
            if ob.flag(WeaponToken::Bottle) {
                let (run, js) = choose|run: Seq<Board>, js: Seq<int>|
                    #[trigger] ob.scan_run(run, js) && run.last() == mid && lines == run_lines(run, js, run.len() - 1)
                        && value == run_value(run, js, run.len() - 1);
                assert(self.grid() == mid.grid());
                assert forall|x: int, y: int| #[trigger] self.at(x, y) == run.last().at(x, y) by {
                    assert(mid.at(x, y) == self.at(x, y));
                }
                assert(ob.scan_run(run, js));
            } else {
                lemma_full_count_bounds(&ob, 0, ob.height as int);
            }
            if ob.flipped_removal() && !ob.flag(WeaponToken::Force) {
                assert(self.grid() == mid.grid());
                assert forall|x: int, y: int|
                    0 <= y < ob.height && !ob.row_full(y) implies self.at(x, y - ob.full_count(0, y)) == land_opt(
                        #[trigger] ob.at(x, y),
                    ) by {
                    assert(mid.at(x, y - ob.full_count(0, y)) == land_opt(ob.at(x, y)));
                }
                assert forall|x: int, y: int|
                    ob.height - ob.full_count(0, ob.height as int) <= y < ob.height implies (#[trigger] self.at(x, y)) is None by {
                    assert(mid.at(x, y) is None);
                }
            }
            if (ob.plain_removal() || ob.flipped_removal()) && ob.flag(WeaponToken::Force) {
                assert forall|x: int, y: int| 0 <= y < ob.height implies #[trigger] self.at(x, y) == ob.force_cleared(x, y) by {
                    assert(self.grid() == mid.grid());
                    assert(mid.at(x, y) == ob.force_cleared(x, y));
                }
            }
            if ob.values_ok() {
                assert forall|x: int, y: int| ((#[trigger] self.at(x, y)) matches Some(c) ==> 0 <= c.value() <= 255) by {
                    assert(self.grid() == mid.grid());
                    assert(mid.at(x, y) matches Some(c) ==> 0 <= c.value() <= 255);
                }
            }
        }
        if lines == 0 {
            return LineClear { lines: 0, value: 0, funds: 0 };
        }
        let lines = lines as i32;
        let value = value as i32;
        let funds = value * lines;
        LineClear { lines, value, funds }
    }
}

impl Board {
    /// Garbage lines lift the stack toward row 0 (Upbyside is off, or this is
    /// the computer's board); otherwise they sink it toward the last row.
    pub open spec fn lifts(&self) -> bool {
        !self.flag(WeaponToken::Upbyside) || self.computer
    }

    /// The columns a lifting garbage line moves in row `i`: the whole width, or
    /// only the neck below the bottle's top while Bottle is active.
    pub open spec fn lift_cols(&self, i: int) -> (int, int) {
        if self.flag(WeaponToken::Bottle) && i < BT_BOARD_HGT / 2 + BT_BOTTLE_Y {
            (BT_BOTTLE_X as int, self.width - BT_BOTTLE_X)
        } else {
            (0, self.width as int)
        }
    }

    /// The columns a sinking garbage line moves in row `i`.
    pub open spec fn sink_cols(&self, i: int) -> (int, int) {
        if self.flag(WeaponToken::Bottle) && i >= BT_BOARD_HGT / 2 - BT_BOTTLE_Y {
            (BT_BOTTLE_X as int, self.width - BT_BOTTLE_X)
        } else {
            (0, self.width as int)
        }
    }

    /// The square at `(x, y)` once rows `0..i` have each taken the row below
    /// them (over their lift columns), leaving the moved squares empty.
    pub open spec fn lifted_upto(&self, i: int, x: int, y: int) -> Option<Cell> {
        if !self.in_bounds(x, y) {
            None
        } else if y < i && y < self.height - 1 && in_cols(self.lift_cols(y), x) {
            self.at(x, y + 1)
        } else if 1 <= y <= i && in_cols(self.lift_cols(y - 1), x) {
            None
        } else {
            self.at(x, y)
        }
    }

    /// The square at `(x, y)` once rows `h - 1` down to `i + 1` have each taken
    /// the row above them (over their sink columns).
    pub open spec fn sunk_from(&self, i: int, x: int, y: int) -> Option<Cell> {
        if !self.in_bounds(x, y) {
            None
        } else if y > i && y >= 1 && in_cols(self.sink_cols(y), x) {
            self.at(x, y - 1)
        } else if i <= y && y + 1 <= self.height - 1 && in_cols(self.sink_cols(y + 1), x) {
            None
        } else {
            self.at(x, y)
        }
    }

    /// What a garbage line with its gap at column `hole` leaves at `(x, y)`.
    pub open spec fn garbage_at(&self, hole: int, x: int, y: int) -> Option<Cell> {
        let h = self.height as int;
        if self.lifts() {
            let cols = if h >= 2 { self.lift_cols(h - 2) } else { (0, self.width as int) };
            if y == h - 1 && in_cols(cols, x) && x != hole && self.in_bounds(x, y) {
                Some(Cell { kind: CellKind::Color(BT_GREEN), hidden: false })
            } else {
                self.lifted_upto(h - 1, x, y)
            }
        } else {
            let cols = if h >= 2 { self.sink_cols(1) } else { (0, self.width as int) };
            if y == 0 && in_cols(cols, x) && x != hole && self.in_bounds(x, y) {
                Some(Cell { kind: CellKind::Color(BT_GREEN), hidden: false })
            } else {
                self.sunk_from(0, x, y)
            }
        }
    }

    fn lift_range(&self, i: i32) -> (r: (i32, i32))
        requires
            self.wf(),
        ensures
            r.0 as int == self.lift_cols(i as int).0,
            r.1 as int == self.lift_cols(i as int).1,
            0 <= r.0,
    {
        if self.is_active(WeaponToken::Bottle) && i < BT_BOARD_HGT / 2 + BT_BOTTLE_Y {
            (BT_BOTTLE_X, self.width - BT_BOTTLE_X)
        } else {
            (0, self.width)
        }
    }

    fn sink_range(&self, i: i32) -> (r: (i32, i32))
        requires
            self.wf(),
        ensures
            r.0 as int == self.sink_cols(i as int).0,
            r.1 as int == self.sink_cols(i as int).1,
            0 <= r.0,
    {
        if self.is_active(WeaponToken::Bottle) && i >= BT_BOARD_HGT / 2 - BT_BOTTLE_Y {
            (BT_BOTTLE_X, self.width - BT_BOTTLE_X)
        } else {
            (0, self.width)
        }
    }

    /// Row `dst` takes row `src` over columns `[x1, x2)`, which then empty.
    fn shift_row(&mut self, dst: i32, src: i32, x1: i32, x2: i32)
        requires
            old(self).wf(),
            0 <= dst < old(self).height,
            0 <= src < old(self).height,
            dst != src,
            0 <= x1,
        ensures
            final(self).wf(),
            final(self).same_but_grid(old(self)),
            forall|x: int, y: int| #[trigger] final(self).at(x, y) == if y == dst && x1 <= x < x2 {
                old(self).at(x, src as int)
            } else if y == src && x1 <= x < x2 {
                None
            } else {
                old(self).at(x, y)
            },
    {
        let mut j = x1;
        while j < x2
            invariant
                self.wf(),
                self.same_but_grid(old(self)),
                0 <= dst < self.height,
                0 <= src < self.height,
                dst != src,
                0 <= x1 <= j,
                j <= x2 || j == x1,
                forall|x: int, y: int| #[trigger] self.at(x, y) == if y == dst && x1 <= x < j {
                    old(self).at(x, src as int)
                } else if y == src && x1 <= x < j {
                    None
                } else {
                    old(self).at(x, y)
                },
            decreases x2 - j,
        {
            let v = self.get(j, src);
            self.set(j, dst, v);
            self.set(j, src, None);
            j = j + 1;
        }
        assert forall|x: int, y: int| #[trigger] self.at(x, y) == if y == dst && x1 <= x < x2 {
            old(self).at(x, src as int)
        } else if y == src && x1 <= x < x2 {
            None
        } else {
            old(self).at(x, y)
        } by {
        }
    }

    /// Fill row `y` over columns `[x1, x2)` with green garbage, except column `hole`.
    fn garbage_row(&mut self, y: i32, x1: i32, x2: i32, hole: i32)
        requires
            old(self).wf(),
        ensures
            final(self).wf(),
            final(self).same_but_grid(old(self)),
            forall|x: int, y1: int| #[trigger] final(self).at(x, y1) == if y1 == y && x1 <= x < x2 && x != hole
                && old(self).in_bounds(x, y1) {
                Some(Cell { kind: CellKind::Color(BT_GREEN), hidden: false })
            } else {
                old(self).at(x, y1)
            },
    {
        let mut i = x1;
        while i < x2
            invariant
                self.wf(),
                self.same_but_grid(old(self)),
                x1 <= i,
                i <= x2 || i == x1,
                forall|x: int, y1: int| #[trigger] self.at(x, y1) == if y1 == y && x1 <= x < i && x != hole
                    && old(self).in_bounds(x, y1) {
                    Some(Cell { kind: CellKind::Color(BT_GREEN), hidden: false })
                } else {
                    old(self).at(x, y1)
                },
            decreases x2 - i,
        {
            if i != hole {
                self.set(i, y, Some(Cell::color(BT_GREEN)));
            }
            i = i + 1;
        }
    }

    /// A garbage line (Rise Up, Lawyers' Delite): push the stack one row toward
    /// row 0 (toward the last row when flipped by Upbyside on a player's board)
    /// and fill the freed edge row with green boxes, leaving one random gap.
    /// With Bottle active only the neck columns move below (above) the bottle.
    /// Garbage boxes are worth no funds.
    pub fn insert_line(&mut self, rng: &mut Rng)
        requires
            old(self).wf(),
            old(self).width >= 1,
        ensures
            final(self).wf(),
            final(self).same_but_grid(old(self)),
            final(rng)@ == lcg_next(old(rng)@),
            forall|x: int, y: int| #[trigger] final(self).at(x, y) == old(self).garbage_at(
                draw(lcg_next(old(rng)@)) % (old(self).width as int),
                x,
                y,
            ),
    {
        let hole = rng.rand_below(self.width);
        let bottle = self.is_active(WeaponToken::Bottle);
        let ghost ob = *self;
        if !self.is_active(WeaponToken::Upbyside) || self.computer {
            let mut x1: i32 = 0;
            let mut x2: i32 = self.width;
            let mut i: i32 = 0;
            while i < self.height - 1
                invariant
                    self.wf(),
                    self.same_but_grid(&ob),
                    ob.wf(),
                    bottle == ob.flag(WeaponToken::Bottle),
                    0 <= i,
                    i <= self.height - 1 || i == 0,
                    (x1 as int, x2 as int) == if i >= 1 { ob.lift_cols(i - 1) } else { (0, ob.width as int) },
                    forall|x: int, y: int| #[trigger] self.at(x, y) == ob.lifted_upto(i as int, x, y),
                decreases self.height - i,
            {
                let (a, b) = self.lift_range(i);
                x1 = a;
                x2 = b;
                let ghost before = *self;
                self.shift_row(i, i + 1, x1, x2);
                assert forall|x: int, y: int| #[trigger] self.at(x, y) == ob.lifted_upto(i + 1, x, y) by {
                    assert(before.at(x, y) == ob.lifted_upto(i as int, x, y));
                    assert(before.at(x, i + 1) == ob.lifted_upto(i as int, x, i + 1));
                }
                i = i + 1;
            }
            let ghost mid = *self;
            self.garbage_row(self.height - 1, x1, x2, hole);
            assert forall|x: int, y: int| #[trigger] self.at(x, y) == ob.garbage_at(hole as int, x, y) by {
                assert(mid.at(x, y) == ob.lifted_upto(i as int, x, y));
                if ob.height >= 2 {
                    assert(i == ob.height - 1);
                }
            }
        } else {
            let mut x1: i32 = 0;
            let mut x2: i32 = self.width;
            let mut i: i32 = self.height - 1;
            while i >= 1
                invariant
                    self.wf(),
                    self.same_but_grid(&ob),
                    ob.wf(),
                    bottle == ob.flag(WeaponToken::Bottle),
                    0 <= i <= self.height - 1 || (i == -1 && self.height == 0),
                    (x1 as int, x2 as int) == if i < self.height - 1 { ob.sink_cols(i + 1) } else { (0, ob.width as int) },
                    forall|x: int, y: int| #[trigger] self.at(x, y) == ob.sunk_from(i as int, x, y),
                decreases i,
            {
                let (a, b) = self.sink_range(i);
                x1 = a;
                x2 = b;
                let ghost before = *self;
                self.shift_row(i, i - 1, x1, x2);
                assert forall|x: int, y: int| #[trigger] self.at(x, y) == ob.sunk_from(i - 1, x, y) by {
                    assert(before.at(x, y) == ob.sunk_from(i as int, x, y));
                    assert(before.at(x, i - 1) == ob.sunk_from(i as int, x, i - 1));
                }
                i = i - 1;
            }
            let ghost mid = *self;
            self.garbage_row(0, x1, x2, hole);
            assert forall|x: int, y: int| #[trigger] self.at(x, y) == ob.garbage_at(hole as int, x, y) by {
                assert(mid.at(x, y) == ob.sunk_from(i as int, x, y));
                if ob.height >= 2 {
                    assert(i == 0);
                }
            }
        }
    }
}

/// Whether `x` lies in the column range `r`.
pub open spec fn in_cols(r: (int, int), x: int) -> bool {
    r.0 <= x < r.1
}

impl Board {
    /// Whether `(x, y)` is a square of the bottle walls: the `BT_BOTTLE_X`
    /// outermost columns on each side, over the `2 * BT_BOTTLE_Y` rows around the
    /// middle of a standard board.
    pub open spec fn is_wall(&self, x: int, y: int) -> bool {
        &&& self.in_bounds(x, y)
        &&& BT_BOARD_HGT / 2 - BT_BOTTLE_Y <= y < BT_BOARD_HGT / 2 + BT_BOTTLE_Y
        &&& (x < BT_BOTTLE_X || x >= self.width - BT_BOTTLE_X)
    }

    /// Put `v` on every bottle-wall square.
    fn paint_walls(&mut self, v: Option<Cell>)
        requires
            old(self).wf(),
        ensures
            final(self).wf(),
            final(self).same_but_grid(old(self)),
            forall|x: int, y: int| #[trigger] final(self).at(x, y) == if old(self).is_wall(x, y) { v } else { old(self).at(x, y) },
    {
        let h = BT_BOARD_HGT;
        let w = self.width;
        let mut x: i32 = 0;
        while x < BT_BOTTLE_X
            invariant
                self.wf(),
                self.same_but_grid(old(self)),
                w == self.width,
                h == BT_BOARD_HGT,
                0 <= x <= BT_BOTTLE_X,
                forall|x1: int, y1: int| #[trigger] self.at(x1, y1) == if old(self).is_wall(x1, y1) && (x1 < x || x1 >= w - x) {
                    v
                } else {
                    old(self).at(x1, y1)
                },
            decreases BT_BOTTLE_X - x,
        {
            let mut y: i32 = h / 2 - BT_BOTTLE_Y;
            while y < h / 2 + BT_BOTTLE_Y
                invariant
                    self.wf(),
                    self.same_but_grid(old(self)),
                    w == self.width,
                    h == BT_BOARD_HGT,
                    0 <= x < BT_BOTTLE_X,
                    h / 2 - BT_BOTTLE_Y <= y <= h / 2 + BT_BOTTLE_Y,
                    forall|x1: int, y1: int| #[trigger] self.at(x1, y1) == if old(self).is_wall(x1, y1) && (x1 < x || x1 >= w - x
                        || ((x1 == x || x1 == w - x - 1) && y1 < y)) {
                        v
                    } else {
                        old(self).at(x1, y1)
                    },
                decreases h / 2 + BT_BOTTLE_Y - y,
            {
                self.set(x, y, v);
                self.set(w - x - 1, y, v);
                y = y + 1;
            }
            x = x + 1;
        }
    }

    /// What Gimp makes of a square: a removable box becomes a gimp box keeping its value.
    pub open spec fn gimped(c: Option<Cell>) -> Option<Cell> {
        match c {
            Some(v) => if v.is_removable() { Some(Cell { kind: CellKind::Gimp(v.value()), hidden: false }) } else { c },
            None => None,
        }
    }

    /// What Twilight Zone makes of a square: a box keeps its kind but is concealed.
    pub open spec fn concealed(c: Option<Cell>) -> Option<Cell> {
        match c {
            Some(v) => Some(Cell { kind: v.kind, hidden: true }),
            None => None,
        }
    }

    /// Apply `gimp` (if true) or concealment (if false) to every square.
    fn recolor_all(&mut self, gimp: bool)
        requires
            old(self).wf(),
        ensures
            final(self).wf(),
            final(self).same_but_grid(old(self)),
            forall|x: int, y: int| #[trigger] final(self).at(x, y) == if gimp {
                Board::gimped(old(self).at(x, y))
            } else {
                Board::concealed(old(self).at(x, y))
            },
    {
        let mut y: i32 = 0;
        while y < self.height
            invariant
                self.wf(),
                self.same_but_grid(old(self)),
                0 <= y <= self.height,
                forall|x1: int, y1: int| #[trigger] self.at(x1, y1) == if y1 < y {
                    if gimp { Board::gimped(old(self).at(x1, y1)) } else { Board::concealed(old(self).at(x1, y1)) }
                } else {
                    old(self).at(x1, y1)
                },
            decreases self.height - y,
        {
            let mut x: i32 = 0;
            while x < self.width
                invariant
                    self.wf(),
                    self.same_but_grid(old(self)),
                    0 <= y < self.height,
                    0 <= x <= self.width,
                    forall|x1: int, y1: int| #[trigger] self.at(x1, y1) == if y1 < y || (y1 == y && x1 < x) {
                        if gimp { Board::gimped(old(self).at(x1, y1)) } else { Board::concealed(old(self).at(x1, y1)) }
                    } else {
                        old(self).at(x1, y1)
                    },
                decreases self.width - x,
            {
                if let Some(c) = self.get(x, y) {
                    if gimp {
                        if c.is_removable() {
                            self.set(x, y, Some(Cell::gimp(c.value())));
                        }
                    } else {
                        let mut c2 = c;
                        c2.conceal();
                        self.set(x, y, Some(c2));
                    }
                }
                x = x + 1;
            }
            assert forall|x1: int, y1: int| #[trigger] self.at(x1, y1) == if y1 < y + 1 {
                if gimp { Board::gimped(old(self).at(x1, y1)) } else { Board::concealed(old(self).at(x1, y1)) }
            } else {
                old(self).at(x1, y1)
            } by {
                if y1 == y && !(x1 < self.width) {
                    assert(old(self).at(x1, y1) is None);
                }
            }
            y = y + 1;
        }
        assert forall|x1: int, y1: int| #[trigger] self.at(x1, y1) == if gimp {
            Board::gimped(old(self).at(x1, y1))
        } else {
            Board::concealed(old(self).at(x1, y1))
        } by {
            if !(y1 < y) {
                assert(old(self).at(x1, y1) is None);
            }
        }
    }
}

impl Board {
    /// `(x, y)` holds a box that weapons may remove.
    pub open spec fn removable_at(&self, x: int, y: int) -> bool {
        self.at(x, y) matches Some(c) && c.is_removable()
    }

    /// The square `dy` rows and `dx` columns past `(sx, sy)`, wrapping around the
    /// board, holds a removable box.
    pub open spec fn scan_hit(&self, sx: int, sy: int, dy: int, dx: int) -> bool {
        &&& 0 <= dy < self.height
        &&& 0 <= dx < self.width
        &&& self.removable_at((sx + dx) % (self.width as int), (sy + dy) % (self.height as int))
    }

    /// `(dy, dx)` is the first hit of the wrapping row-by-row scan from `(sx, sy)`.
    pub open spec fn scan_first(&self, sx: int, sy: int, dy: int, dx: int) -> bool {
        &&& self.scan_hit(sx, sy, dy, dx)
        &&& forall|dy2: int, dx2: int| (dy2 < dy || (dy2 == dy && dx2 < dx)) ==> !#[trigger] self.scan_hit(sx, sy, dy2, dx2)
    }

    /// The first removable box of the wrapping scan from `(sx, sy)`, if any.
    fn find_removable(&self, sx: i32, sy: i32) -> (r: Option<(i32, i32)>)
        requires
            self.wf(),
            0 <= sx < self.width,
            0 <= sy < self.height,
        ensures
            r matches Some(p) ==> exists|dy: int, dx: int|
                #[trigger] self.scan_first(sx as int, sy as int, dy, dx) && p.0 == (sx + dx) % (self.width as int) && p.1 == (sy
                    + dy) % (self.height as int),
            r is None ==> forall|dy: int, dx: int| !#[trigger] self.scan_hit(sx as int, sy as int, dy, dx),
    {
        let w = self.width as i64;
        let h = self.height as i64;
        let mut dy: i64 = 0;
        while dy < h
            invariant
                self.wf(),
                w == self.width,
                h == self.height,
                0 <= sx < w,
                0 <= sy < h,
                0 <= dy <= h,
                forall|dy2: int, dx2: int| dy2 < dy ==> !#[trigger] self.scan_hit(sx as int, sy as int, dy2, dx2),
            decreases h - dy,
        {
            let y = ((sy as i64 + dy) % h) as i32;
            let mut dx: i64 = 0;
            while dx < w
                invariant
                    self.wf(),
                    w == self.width,
                    h == self.height,
                    0 <= sx < w,
                    0 <= sy < h,
                    0 <= dy < h,
                    0 <= dx <= w,
                    y == (sy + dy) % (h as int),
                    forall|dy2: int, dx2: int| (dy2 < dy || (dy2 == dy && dx2 < dx)) ==> !#[trigger] self.scan_hit(sx as int, sy as int, dy2, dx2),
                decreases w - dx,
            {
                let x = ((sx as i64 + dx) % w) as i32;
                if let Some(c) = self.get(x, y) {
                    if c.is_removable() {
                        assert(self.scan_first(sx as int, sy as int, dy as int, dx as int));
                        return Some((x, y));
                    }
                }
                dx = dx + 1;
            }
            dy = dy + 1;
        }
        None
    }

    /// Missing: remove the first removable box of the wrapping scan from `(sx, sy)`.
    fn remove_first_from(&mut self, sx: i32, sy: i32)
        requires
            old(self).wf(),
            0 <= sx < old(self).width,
            0 <= sy < old(self).height,
        ensures
            final(self).wf(),
            final(self).same_but_grid(old(self)),
            (exists|dy: int, dx: int|
                #[trigger] old(self).scan_first(sx as int, sy as int, dy, dx) && forall|x: int, y: int| #[trigger] final(self).at(x, y)
                    == if x == (sx + dx) % (old(self).width as int) && y == (sy + dy) % (old(self).height as int) {
                    None
                } else {
                    old(self).at(x, y)
                }) || ((forall|dy: int, dx: int| !#[trigger] old(self).scan_hit(sx as int, sy as int, dy, dx))
                && final(self).grid() == old(self).grid()),
    {
        match self.find_removable(sx, sy) {
            Some((x, y)) => {
                let ghost ob = *self;
                self.set(x, y, None);
                proof {
                    let (dy, dx) = choose|dy: int, dx: int|
                        #[trigger] ob.scan_first(sx as int, sy as int, dy, dx) && x == (sx + dx) % (ob.width as int) && y == (sy + dy) % (
                        ob.height as int);
                    assert(ob.in_bounds(x as int, y as int));
                    assert(ob.scan_first(sx as int, sy as int, dy, dx));
                }
            },
            None => {},
        }
    }

    /// Removable boxes among the first `n` squares of row `y`.
    pub open spec fn row_removables(&self, y: int, n: int) -> nat
        decreases n,
    {
        if n <= 0 {
            0
        } else {
            self.row_removables(y, n - 1) + if self.removable_at(n - 1, y) { 1nat } else { 0nat }
        }
    }

    /// Removable boxes in the rows above row `y`.
    pub open spec fn removables_above(&self, y: int) -> nat
        decreases y,
    {
        if y <= 0 {
            0
        } else {
            self.removables_above(y - 1) + self.row_removables(y - 1, self.width as int)
        }
    }

    /// What Blind leaves at `(x, y)` when its coin flips are drawn from the
    /// stream starting at state `s0`: the k-th removable box in row-major order
    /// is removed when the k-th draw is even.
    pub open spec fn blinded_at(&self, s0: u64, x: int, y: int) -> Option<Cell> {
        let rank = self.removables_above(y) + self.row_removables(y, x);
        if self.removable_at(x, y) && draw(lcg_iter(s0, rank + 1)) % 2 == 0 {
            None
        } else {
            self.at(x, y)
        }
    }

    /// Blind: flip a coin for every removable box and remove it on heads.
    fn blind(&mut self, rng: &mut Rng)
        requires
            old(self).wf(),
        ensures
            final(self).wf(),
            final(self).same_but_grid(old(self)),
            final(rng)@ == lcg_iter(old(rng)@, old(self).removables_above(old(self).height as int)),
            forall|x: int, y: int| #[trigger] final(self).at(x, y) == old(self).blinded_at(old(rng)@, x, y),
    {
        let ghost s0 = rng@;
        let ghost ob = *self;
        let mut y: i32 = 0;
        while y < self.height
            invariant
                self.wf(),
                self.same_but_grid(&ob),
                ob.wf(),
                0 <= y <= self.height,
                rng@ == lcg_iter(s0, ob.removables_above(y as int)),
                forall|x1: int, y1: int| #[trigger] self.at(x1, y1) == if y1 < y { ob.blinded_at(s0, x1, y1) } else { ob.at(x1, y1) },
            decreases self.height - y,
        {
            let mut x: i32 = 0;
            while x < self.width
                invariant
                    self.wf(),
                    self.same_but_grid(&ob),
                    ob.wf(),
                    0 <= y < self.height,
                    0 <= x <= self.width,
                    rng@ == lcg_iter(s0, ob.removables_above(y as int) + ob.row_removables(y as int, x as int)),
                    forall|x1: int, y1: int| #[trigger] self.at(x1, y1) == if y1 < y || (y1 == y && x1 < x) {
                        ob.blinded_at(s0, x1, y1)
                    } else {
                        ob.at(x1, y1)
                    },
                decreases self.width - x,
            {
                if let Some(c) = self.get(x, y) {
                    if c.is_removable() {
                        let coin = rng.rand_below(2);
                        if coin == 0 {
                            self.set(x, y, None);
                        }
                    }
                }
                x = x + 1;
            }
            assert forall|x1: int, y1: int| #[trigger] self.at(x1, y1) == if y1 < y + 1 {
                ob.blinded_at(s0, x1, y1)
            } else {
                ob.at(x1, y1)
            } by {
                if y1 == y && !(x1 < self.width) {
                    assert(ob.at(x1, y1) is None);
                }
            }
            y = y + 1;
        }
        assert forall|x1: int, y1: int| #[trigger] self.at(x1, y1) == ob.blinded_at(s0, x1, y1) by {
            if !(y1 < y) {
                assert(ob.at(x1, y1) is None);
            }
        }
    }
}

/// The square tried by the `k`-th attempt to drop a stray box, drawing from the
/// stream that starts at state `s0`: a random column, and a random row in the
/// middle two quarters of a board `h` rows high.
#[verifier::opaque]
pub open spec fn drop_spot(s0: u64, w: int, h: int, k: nat) -> (int, int) {
    (draw(lcg_iter(s0, 2 * k + 1)) % w, draw(lcg_iter(s0, 2 * k + 2)) % (h / 2) + h / 4)
}

/// The box a stray drop leaves: invisible for Bug, a random color for Piece It.
pub open spec fn stray_box(s0: u64, k: nat, bug: bool) -> Cell {
    if bug {
        Cell { kind: CellKind::Color(BT_INVISIBLE), hidden: false }
    } else {
        Cell { kind: CellKind::Color((draw(lcg_iter(s0, 2 * k + 3)) % (BT_NEUTRAL - 1) + 1) as i32), hidden: false }
    }
}

impl Board {
    /// The `k`-th drop attempt is the first to find a free square.
    pub open spec fn first_free_spot(&self, s0: u64, k: nat) -> bool {
        &&& !self.occupied_spec(drop_spot(s0, self.width as int, self.height as int, k).0, drop_spot(s0, self.width as int, self.height as int, k).1)
        &&& forall|k2: nat| k2 < k ==> self.occupied_spec(
            #[trigger] drop_spot(s0, self.width as int, self.height as int, k2).0,
            drop_spot(s0, self.width as int, self.height as int, k2).1,
        )
    }

    /// Draw the square of drop attempt `t`.
    fn pick_spot(&self, rng: &mut Rng, Ghost(s0): Ghost<u64>, Ghost(t): Ghost<nat>) -> (r: (i32, i32))
        requires
            self.wf(),
            self.width >= 1,
            self.height >= 2,
            old(rng)@ == lcg_iter(s0, 2 * t),
        ensures
            final(rng)@ == lcg_iter(s0, 2 * t + 2),
            (r.0 as int, r.1 as int) == drop_spot(s0, self.width as int, self.height as int, t),
            0 <= r.0 < self.width,
            0 <= r.1 < self.height,
    {
        proof {
            reveal(drop_spot);
            assert(lcg_iter(s0, 2 * t + 1) == lcg_next(lcg_iter(s0, 2 * t)));
            assert(lcg_iter(s0, 2 * t + 2) == lcg_next(lcg_iter(s0, 2 * t + 1)));
        }
        let i = rng.rand_below(self.width);
        let j = rng.rand_below(self.height / 2) + self.height / 4;
        (i, j)
    }

    /// Put the box of drop attempt `t` on its (free) square.
    fn place_stray(&mut self, i: i32, j: i32, rng: &mut Rng, bug: bool, Ghost(s0): Ghost<u64>, Ghost(t): Ghost<nat>)
        requires
            old(self).wf(),
            old(rng)@ == lcg_iter(s0, 2 * t + 2),
        ensures
            final(self).wf(),
            final(self).same_but_grid(old(self)),
            final(rng)@ == lcg_iter(s0, if bug { 2 * t + 2 } else { 2 * t + 3 }),
            forall|x: int, y: int| #[trigger] final(self).at(x, y) == if x == i && y == j && old(self).in_bounds(x, y) {
                Some(stray_box(s0, t, bug))
            } else {
                old(self).at(x, y)
            },
    {
        let cell = if bug {
            Cell::color(BT_INVISIBLE)
        } else {
            Cell::color(rng.rand_below(BT_NEUTRAL - 1) + 1)
        };
        self.set(i, j, Some(cell));
    }

    /// Draw drop attempts until one finds a free square; returns it with its
    /// attempt number, or `None` after `u64::MAX` occupied attempts.
    fn find_stray_spot(&self, rng: &mut Rng) -> (r: (Option<(i32, i32)>, Ghost<nat>))
        requires
            self.wf(),
            self.width >= 1,
            self.height >= 2,
        ensures
            r.0 matches Some(p) ==> {
                &&& self.first_free_spot(old(rng)@, r.1@)
                &&& (p.0 as int, p.1 as int) == drop_spot(old(rng)@, self.width as int, self.height as int, r.1@)
                &&& 0 <= p.0 < self.width
                &&& 0 <= p.1 < self.height
                &&& final(rng)@ == lcg_iter(old(rng)@, 2 * r.1@ + 2)
            },
            r.0 is None ==> forall|k2: nat| k2 < u64::MAX ==> self.occupied_spec(
                #[trigger] drop_spot(old(rng)@, self.width as int, self.height as int, k2).0,
                drop_spot(old(rng)@, self.width as int, self.height as int, k2).1,
            ),
    {
        let ghost s0 = rng@;
        let mut tries: u64 = 0;
        while tries < u64::MAX
            invariant
                self.wf(),
                self.width >= 1,
                self.height >= 2,
                s0 == old(rng)@,
                rng@ == lcg_iter(s0, 2 * tries as nat),
                forall|k2: nat| k2 < tries ==> self.occupied_spec(
                    #[trigger] drop_spot(s0, self.width as int, self.height as int, k2).0,
                    drop_spot(s0, self.width as int, self.height as int, k2).1,
                ),
            decreases u64::MAX - tries,
        {
            let (i, j) = self.pick_spot(rng, Ghost(s0), Ghost(tries as nat));
            if !self.occupied(i, j) {
                proof {
                    let d = drop_spot(s0, self.width as int, self.height as int, tries as nat);
                    assert(d.0 == i && d.1 == j);
                    assert(self.first_free_spot(s0, tries as nat));
                }
                return (Some((i, j)), Ghost(tries as nat));
            }
            proof {
                assert(2 * ((tries + 1) as nat) == 2 * (tries as nat) + 2);
            }
            tries = tries + 1;
        }
        (None, Ghost(0))
    }

    /// Piece It / Bug: put a box on a random free square in the middle two
    /// quarters of the board, retrying until a free square comes up (at most
    /// `u64::MAX` attempts).
    fn drop_stray(&mut self, rng: &mut Rng, bug: bool)
        requires
            old(self).wf(),
            old(self).width >= 1,
            old(self).height >= 2,
        ensures
            final(self).wf(),
            final(self).same_but_grid(old(self)),
            (exists|k: nat|
                #[trigger] old(self).first_free_spot(old(rng)@, k) && final(rng)@ == lcg_iter(old(rng)@, if bug { 2 * k + 2 } else { 2 * k + 3 })
                    && forall|x: int, y: int| #[trigger] final(self).at(x, y) == if (x, y) == drop_spot(old(rng)@, old(self).width as int, old(self).height as int, k) {
                    Some(stray_box(old(rng)@, k, bug))
                } else {
                    old(self).at(x, y)
                }) || ((forall|k2: nat| k2 < u64::MAX ==> old(self).occupied_spec(
                #[trigger] drop_spot(old(rng)@, old(self).width as int, old(self).height as int, k2).0,
                drop_spot(old(rng)@, old(self).width as int, old(self).height as int, k2).1,
            )) && final(self).grid() == old(self).grid()),
    {
        let ghost s0 = rng@;
        let ghost ob = *self;
        let (spot, Ghost(k)) = self.find_stray_spot(rng);
        if let Some((i, j)) = spot {
            self.place_stray(i, j, rng, bug, Ghost(s0), Ghost(k));
            proof {
                lemma_stray_found(&ob, self, s0, k, bug, i as int, j as int);
            }
        }
    }

    /// What Fall Out leaves at `(x, y)` after `k` bottom-line removals over the
    /// middle columns (between the ledges) of a board without Bottle: on a
    /// flipped board (see [`Board::flipped_removal`]) the removals close up
    /// toward row 0.
    pub open spec fn fallen_at(&self, k: int, x: int, y: int) -> Option<Cell> {
        let h = self.height as int;
        if !(BT_FALL_OUT_LEDGE <= x < self.width - BT_FALL_OUT_LEDGE && self.in_bounds(x, y)) {
            self.at(x, y)
        } else if self.flipped_removal() {
            if !self.flag(WeaponToken::Force) {
                if self.upside {
                    if y >= h - k { None } else { self.at(x, y + k) }
                } else if y == h - 1 && k >= 1 {
                    None
                } else {
                    self.at(x, y)
                }
            } else if k >= 1 && self.upside && y == 0 && h - 1 >= 1 {
                None
            } else {
                self.at(x, y)
            }
        } else if !self.flag(WeaponToken::Force) {
            if !self.upside {
                if y < k { None } else { self.at(x, y - k) }
            } else if y == 0 && k >= 1 {
                None
            } else {
                self.at(x, y)
            }
        } else if k >= 1 && !self.upside && y == h - 1 && h - 1 >= 1 {
            None
        } else {
            self.at(x, y)
        }
    }

    /// One removal of Fall Out's line under Bottle, at `(x, y)`: the last row
    /// (row 0 when the board is upside down) is removed over the middle
    /// columns between the ledges as a removal under Bottle does (see
    /// [`Board::bottle_forced_at`], [`Board::bottle_removed_up_at`],
    /// [`Board::bottle_removed_at`]).
    pub open spec fn bottle_fall_once(&self, x: int, y: int) -> Option<Cell> {
        let line = if !self.upside { self.height - 1 } else { 0 };
        let hi = if self.width - BT_FALL_OUT_LEDGE < 0 { self.width as int } else { self.width - BT_FALL_OUT_LEDGE };
        if self.flag(WeaponToken::Force) {
            self.bottle_forced_at(line, BT_FALL_OUT_LEDGE as int, hi, x, y)
        } else if self.removes_up() {
            self.bottle_removed_up_at(line, BT_FALL_OUT_LEDGE as int, hi, x, y)
        } else {
            self.bottle_removed_at(line, BT_FALL_OUT_LEDGE as int, hi, x, y)
        }
    }

    /// `run` is Fall Out under Bottle on this board: the board itself, then
    /// each board one [`Board::bottle_fall_once`] removal from the one before,
    /// flags unchanged, as many removals as the board is high.
    pub open spec fn fall_run(&self, run: Seq<Board>) -> bool {
        &&& run.len() == self.height + 1
        &&& run[0] == *self
        &&& forall|k: int| 0 <= k < self.height ==> #[trigger] run[k + 1].same_but_grid(&run[k]) && forall|x: int, y: int|
            #[trigger] run[k + 1].at(x, y) == run[k].bottle_fall_once(x, y)
    }

    /// Fall Out: the middle of the floor (the ceiling when flipped) gives way:
    /// the line there is removed, over the middle columns, as many times as the
    /// board is high.
    fn fall_out(&mut self)
        requires
            old(self).wf(),
        ensures
            final(self).wf(),
            final(self).same_but_grid(old(self)),
            final(self).cells_from(old(self)),
            (old(self).plain_removal() || old(self).flipped_removal()) ==> forall|x: int, y: int| #[trigger] final(self).at(x, y) == old(self).fallen_at(old(self).height as int, x, y),
            old(self).flag(WeaponToken::Bottle) ==> exists|run: Seq<Board>| #[trigger] old(self).fall_run(run) && run.last() == *final(self),
    {
        let ghost ob = *self;
        let ghost mut run: Seq<Board> = seq![*self];
        let mut k: i32 = 0;
        while k < self.height
            invariant
                self.wf(),
                self.same_but_grid(&ob),
                ob.wf(),
                self.cells_from(&ob),
                0 <= k <= self.height,
                (ob.plain_removal() || ob.flipped_removal()) ==> forall|x: int, y: int| #[trigger] self.at(x, y) == ob.fallen_at(k as int, x, y),
                run.len() == k + 1,
                run[0] == ob,
                run.last() == *self,
                ob.flag(WeaponToken::Bottle) ==> forall|i: int| 0 <= i < k ==> #[trigger] run[i + 1].same_but_grid(&run[i]) && forall|x: int, y: int|
                    #[trigger] run[i + 1].at(x, y) == run[i].bottle_fall_once(x, y),
            decreases self.height - k,
        {
            let line = if !self.upside { self.height - 1 } else { 0 };
            let ghost prev = *self;
            self.remove_line(line, BT_FALL_OUT_LEDGE, self.width - BT_FALL_OUT_LEDGE);
            proof {
                let run2 = run.push(*self);
                if ob.flag(WeaponToken::Bottle) {
                    assert(prev.flag(WeaponToken::Bottle) && prev.upside == ob.upside);
                    assert forall|x: int, y: int| #[trigger] self.at(x, y) == prev.bottle_fall_once(x, y) by {
                    }
                    lemma_fall_run_step(ob, run, prev, *self, k as int);
                }
                run = run2;
                lemma_cells_from_trans(self, &prev, &ob);
                if ob.plain_removal() {
                    assert(prev.plain_removal());
                    assert forall|x: int, y: int| #[trigger] self.at(x, y) == ob.fallen_at(k + 1, x, y) by {
                        let hi = if self.width - BT_FALL_OUT_LEDGE < 0 { self.width as int } else { self.width - BT_FALL_OUT_LEDGE };
                        assert(self.at(x, y) == prev.removed_at(line as int, BT_FALL_OUT_LEDGE as int, hi, prev.flag(WeaponToken::Force), x, y));
                        assert(prev.at(x, y) == ob.fallen_at(k as int, x, y));
                        assert(prev.at(x, y - 1) == ob.fallen_at(k as int, x, y - 1));
                    }
                }
                if ob.flipped_removal() {
                    assert(prev.flipped_removal());
                    assert forall|x: int, y: int| #[trigger] self.at(x, y) == ob.fallen_at(k + 1, x, y) by {
                        let hi = if self.width - BT_FALL_OUT_LEDGE < 0 { self.width as int } else { self.width - BT_FALL_OUT_LEDGE };
                        assert(self.at(x, y) == prev.removed_up_at(line as int, BT_FALL_OUT_LEDGE as int, hi, prev.flag(WeaponToken::Force), x, y));
                        assert(prev.at(x, y) == ob.fallen_at(k as int, x, y));
                        assert(prev.at(x, y + 1) == ob.fallen_at(k as int, x, y + 1));
                    }
                }
            }
            k = k + 1;
        }
        proof {
            if ob.flag(WeaponToken::Bottle) {
                assert(k == ob.height);
                assert(ob.fall_run(run));
            }
        }
    }
}

/// One more Fall Out removal extends the run.
proof fn lemma_fall_run_step(ob: Board, run: Seq<Board>, prev: Board, cur: Board, k: int)
    requires
        0 <= k,
        run.len() == k + 1,
        run.last() == prev,
        forall|i: int| 0 <= i < k ==> #[trigger] run[i + 1].same_but_grid(&run[i]) && forall|x: int, y: int|
            #[trigger] run[i + 1].at(x, y) == run[i].bottle_fall_once(x, y),
        cur.same_but_grid(&prev),
        forall|x: int, y: int| #[trigger] cur.at(x, y) == prev.bottle_fall_once(x, y),
    ensures
        forall|i: int| 0 <= i < k + 1 ==> #[trigger] run.push(cur)[i + 1].same_but_grid(&run.push(cur)[i]) && forall|x: int, y: int|
            #[trigger] run.push(cur)[i + 1].at(x, y) == run.push(cur)[i].bottle_fall_once(x, y),
{
    let run2 = run.push(cur);
    assert forall|i: int| 0 <= i < k + 1 implies #[trigger] run2[i + 1].same_but_grid(&run2[i]) && forall|x: int, y: int|
        #[trigger] run2[i + 1].at(x, y) == run2[i].bottle_fall_once(x, y) by {
        if i < k {
            assert(run2[i] == run[i] && run2[i + 1] == run[i + 1]);
        } else {
            assert(run2[i] == prev && run2[i + 1] == cur);
        }
    }
}

proof fn lemma_stray_found(ob: &Board, cur: &Board, s0: u64, k: nat, bug: bool, i: int, j: int)
    requires
        (i, j) == drop_spot(s0, ob.width as int, ob.height as int, k),
        ob.first_free_spot(s0, k),
        0 <= i < ob.width,
        0 <= j < ob.height,
        ob.wf(),
        ob.width >= 1,
        ob.height >= 2,
        forall|x: int, y: int| #[trigger] cur.at(x, y) == if x == i && y == j && ob.in_bounds(x, y) {
            Some(stray_box(s0, k, bug))
        } else {
            ob.at(x, y)
        },
    ensures
        forall|x: int, y: int| #[trigger] cur.at(x, y) == if (x, y) == drop_spot(s0, ob.width as int, ob.height as int, k) {
            Some(stray_box(s0, k, bug))
        } else {
            ob.at(x, y)
        },
{
}

/// Copies of copies are copies.
proof fn lemma_cells_from_trans(c: &Board, b: &Board, a: &Board)
    requires
        c.cells_from(b),
        b.cells_from(a),
    ensures
        c.cells_from(a),
{
    assert forall|x: int, y: int| (#[trigger] c.at(x, y)) is Some implies exists|x2: int, y2: int| a.at(x2, y2) == c.at(x, y) by {
        let (x1, y1) = choose|x1: int, y1: int| b.at(x1, y1) == c.at(x, y);
        assert(b.at(x1, y1) is Some);
        let (x2, y2) = choose|x2: int, y2: int| a.at(x2, y2) == b.at(x1, y1);
        assert(a.at(x2, y2) == c.at(x, y));
    }
}

impl Board {
    /// This board is board `o` with the bottle walls raised.
    pub open spec fn walls_raised(&self, o: &Board) -> bool {
        &&& self.wf()
        &&& self.same_but_grid(o)
        &&& forall|x: int, y: int| #[trigger] self.at(x, y) == if o.is_wall(x, y) {
            Some(Cell { kind: CellKind::Structure, hidden: false })
        } else {
            o.at(x, y)
        }
    }

    /// The one-shot effect of weapon `t` turning on, taking board `o` to this
    /// board and the random stream from state `s0` to state `s1`.
    pub open spec fn weapon_effect(&self, o: &Board, t: WeaponToken, s0: u64, s1: u64) -> bool {
        let w = o.width as int;
        let h = o.height as int;
        match t {
            WeaponToken::Upbyside => s1 == s0 && forall|x: int, y: int| #[trigger] self.at(x, y) == if !o.upside && !o.computer {
                o.at(x, h - 1 - y)
            } else {
                o.at(x, y)
            },
            WeaponToken::PieceIt | WeaponToken::Bug => {
                let bug = t == WeaponToken::Bug;
                (exists|k: nat|
                    #[trigger] o.first_free_spot(s0, k) && s1 == lcg_iter(s0, if bug { 2 * k + 2 } else { 2 * k + 3 })
                        && forall|x: int, y: int| #[trigger] self.at(x, y) == if (x, y) == drop_spot(s0, w, h, k) {
                        Some(stray_box(s0, k, bug))
                    } else {
                        o.at(x, y)
                    }) || ((forall|k2: nat| k2 < u64::MAX ==> o.occupied_spec(
                    #[trigger] drop_spot(s0, w, h, k2).0,
                    drop_spot(s0, w, h, k2).1,
                )) && self.grid() == o.grid())
            },
            WeaponToken::Missing => {
                let sx = draw(lcg_next(s0)) % w;
                let sy = draw(lcg_next(lcg_next(s0))) % h;
                &&& s1 == lcg_next(lcg_next(s0))
                &&& (exists|dy: int, dx: int|
                    #[trigger] o.scan_first(sx, sy, dy, dx) && forall|x: int, y: int| #[trigger] self.at(x, y) == if x == (sx + dx) % w
                        && y == (sy + dy) % h {
                        None
                    } else {
                        o.at(x, y)
                    }) || ((forall|dy: int, dx: int| !#[trigger] o.scan_hit(sx, sy, dy, dx)) && self.grid() == o.grid())
            },
            WeaponToken::Blind => s1 == lcg_iter(s0, o.removables_above(h)) && forall|x: int, y: int| #[trigger] self.at(x, y)
                == o.blinded_at(s0, x, y),
            WeaponToken::Gimp => s1 == s0 && forall|x: int, y: int| #[trigger] self.at(x, y) == Board::gimped(o.at(x, y)),
            WeaponToken::Twilight => s1 == s0 && forall|x: int, y: int| #[trigger] self.at(x, y) == Board::concealed(o.at(x, y)),
            WeaponToken::FlipOut => s1 == s0 && forall|x: int, y: int| #[trigger] self.at(x, y) == o.at(w - 1 - x, y),
            WeaponToken::FallOut => s1 == s0 && self.cells_from(o) && ((o.plain_removal() || o.flipped_removal()) ==> forall|x: int, y: int| #[trigger] self.at(x, y)
                == o.fallen_at(h, x, y)) && (o.flag(WeaponToken::Bottle) ==> exists|run: Seq<Board>| #[trigger] o.fall_run(run)
                && forall|x: int, y: int| #[trigger] self.at(x, y) == run.last().at(x, y)),
            WeaponToken::Bottle => s1 == s0 && exists|mid: Board, r: LineClear| #[trigger] mid.walls_raised(o) && #[trigger] self.lines_cleared(&mid, r),
            WeaponToken::RiseUp => s1 == lcg_next(s0) && forall|x: int, y: int| #[trigger] self.at(x, y) == o.garbage_at(draw(lcg_next(s0)) % w, x, y),
            _ => s1 == s0 && self.grid() == o.grid(),
        }
    }

    /// The board effect of weapon `t` turning off, taking board `o` to this board.
    pub open spec fn weapon_reverted(&self, o: &Board, t: WeaponToken) -> bool {
        forall|x: int, y: int| #[trigger] self.at(x, y) == if t == WeaponToken::Upbyside && !o.computer {
            o.at(x, o.height - 1 - y)
        } else if t == WeaponToken::Bottle && o.is_wall(x, y) {
            None
        } else {
            o.at(x, y)
        }
    }

    /// Raise the bottle walls and check the lines they complete.
    fn raise_bottle(&mut self)
        requires
            old(self).wf(),
            old(self).width >= 1,
            forall|mid: Board| #[trigger] mid.walls_raised(old(self)) ==> mid.tally_fits(),
        ensures
            final(self).wf(),
            final(self).width == old(self).width,
            final(self).height == old(self).height,
            final(self).active == old(self).active,
            final(self).upside == old(self).upside,
            final(self).computer == old(self).computer,
            final(self).fresh() == old(self).fresh(),
            old(self).values_ok() ==> final(self).values_ok(),
            exists|mid: Board, r: LineClear| #[trigger] mid.walls_raised(old(self)) && #[trigger] final(self).lines_cleared(&mid, r),
    {
        self.paint_walls(Some(Cell::structure()));
        let ghost mid = *self;
        assert(old(self).values_ok() ==> self.values_ok()) by {
            if old(self).values_ok() {
                assert forall|x: int, y: int| ((#[trigger] self.at(x, y)) matches Some(c) ==> 0 <= c.value() <= 255) by {
                    assert(old(self).at(x, y) matches Some(c) ==> 0 <= c.value() <= 255);
                }
            }
        }
        assert(self.walls_raised(old(self)));
        let r = self.check_lines();
        assert(mid.walls_raised(old(self)) && self.lines_cleared(&mid, r));
    }

    /// The one-shot board effect of weapon `token` turning on (set its active
    /// flag with [`Board::set_active`] first): Upbyside flips a player's board
    /// top to bottom; Piece It and Bug drop a stray box; Missing removes one box;
    /// Blind removes about half of them; Gimp turns boxes to gimp boxes; Twilight
    /// Zone conceals them; Flip Out mirrors left to right; Fall Out drops the
    /// middle of the floor; Bottle raises the bottle walls and checks lines;
    /// Rise Up inserts a garbage line. Other weapons leave the board alone.
    pub fn apply_weapon(&mut self, token: WeaponToken, rng: &mut Rng)
        requires
            old(self).wf(),
            (token == WeaponToken::RiseUp || token == WeaponToken::Missing || token == WeaponToken::PieceIt || token
                == WeaponToken::Bug) ==> old(self).width >= 1,
            token == WeaponToken::Missing ==> old(self).height >= 1,
            (token == WeaponToken::PieceIt || token == WeaponToken::Bug) ==> old(self).height >= 2,
            token == WeaponToken::Bottle ==> {
                &&& old(self).width >= 1
                &&& forall|mid: Board| #[trigger] mid.walls_raised(old(self)) ==> mid.tally_fits()
            },
        ensures
            final(self).wf(),
            final(self).width == old(self).width,
            final(self).height == old(self).height,
            final(self).active == old(self).active,
            final(self).computer == old(self).computer,
            final(self).fresh() == old(self).fresh(),
            final(self).upside == (old(self).upside || token == WeaponToken::Upbyside),
            token != WeaponToken::Bottle ==> final(self).idiot == old(self).idiot && final(self).reason == old(self).reason,
            token == WeaponToken::Bottle && old(self).values_ok() ==> final(self).values_ok(),
            final(self).weapon_effect(old(self), token, old(rng)@, final(rng)@),
    {
        match token {
            WeaponToken::Upbyside => {
                let flip = !self.upside && !self.computer;
                self.upside = true;
                if flip {
                    self.flip_horiz();
                }
            },
            WeaponToken::PieceIt => {
                self.drop_stray(rng, false);
            },
            WeaponToken::Bug => {
                self.drop_stray(rng, true);
            },
            WeaponToken::Missing => {
                let sx = rng.rand_below(self.width);
                let sy = rng.rand_below(self.height);
                self.remove_first_from(sx, sy);
            },
            WeaponToken::Blind => {
                self.blind(rng);
            },
            WeaponToken::Gimp => {
                self.recolor_all(true);
            },
            WeaponToken::Twilight => {
                self.recolor_all(false);
            },
            WeaponToken::FlipOut => {
                self.flip_vert();
            },
            WeaponToken::FallOut => {
                self.fall_out();
            },
            WeaponToken::Bottle => {
                self.raise_bottle();
            },
            WeaponToken::RiseUp => {
                self.insert_line(rng);
            },
            _ => {},
        }
    }

    /// The board effect of weapon `token` turning off: Upbyside flips a
    /// player's board back; Bottle clears its walls. Other weapons leave the
    /// board alone.
    pub fn revert_weapon(&mut self, token: WeaponToken)
        requires
            old(self).wf(),
        ensures
            final(self).wf(),
            final(self).width == old(self).width,
            final(self).height == old(self).height,
            final(self).active == old(self).active,
            final(self).computer == old(self).computer,
            final(self).fresh() == old(self).fresh(),
            final(self).idiot == old(self).idiot,
            final(self).reason == old(self).reason,
            final(self).upside == (old(self).upside && token != WeaponToken::Upbyside),
            final(self).weapon_reverted(old(self), token),
    {
        match token {
            WeaponToken::Upbyside => {
                self.upside = false;
                if !self.computer {
                    self.flip_horiz();
                }
            },
            WeaponToken::Bottle => {
                self.paint_walls(None);
            },
            _ => {},
        }
    }
}

/// Every weapon's board effect, on or off, keeps each box worth 0 to 255.
pub proof fn lemma_effect_keeps_values(b: Board, o: Board, t: WeaponToken, s0: u64, s1: u64)
    requires
        o.wf(),
        o.values_ok(),
        b.width == o.width,
        b.height == o.height,
        b.weapon_effect(&o, t, s0, s1),
        t == WeaponToken::Bottle ==> b.values_ok(),
    ensures
        b.values_ok(),
{
    assert forall|x: int, y: int| ((#[trigger] b.at(x, y)) matches Some(c) ==> 0 <= c.value() <= 255) by {
        match t {
            WeaponToken::Upbyside => {
                assert(o.at(x, o.height - 1 - y) matches Some(c) ==> 0 <= c.value() <= 255);
                assert(o.at(x, y) matches Some(c) ==> 0 <= c.value() <= 255);
            },
            WeaponToken::FlipOut => {
                assert(o.at(o.width - 1 - x, y) matches Some(c) ==> 0 <= c.value() <= 255);
            },
            WeaponToken::FallOut => {
                if b.at(x, y) is Some {
                    let (x2, y2) = choose|x2: int, y2: int| o.at(x2, y2) == b.at(x, y);
                    assert(o.at(x2, y2) matches Some(c) ==> 0 <= c.value() <= 255);
                }
            },
            WeaponToken::Bottle => {},
            _ => {
                assert(o.at(x, y) matches Some(c) ==> 0 <= c.value() <= 255);
            },
        }
    }
}

/// Turning a weapon off keeps each box worth 0 to 255.
pub proof fn lemma_revert_keeps_values(b: Board, o: Board, t: WeaponToken)
    requires
        o.values_ok(),
        b.weapon_reverted(&o, t),
    ensures
        b.values_ok(),
{
    assert forall|x: int, y: int| ((#[trigger] b.at(x, y)) matches Some(c) ==> 0 <= c.value() <= 255) by {
        assert(o.at(x, o.height - 1 - y) matches Some(c) ==> 0 <= c.value() <= 255);
        assert(o.at(x, y) matches Some(c) ==> 0 <= c.value() <= 255);
    }
}

/// Upbyside turning off undoes Upbyside turning on: a board that was not
/// already flipped gets every square back.
pub proof fn lemma_upbyside_undone(a: Board, b: Board, c: Board, s0: u64, s1: u64)
    requires
        a.wf(),
        !a.upside,
        b.weapon_effect(&a, WeaponToken::Upbyside, s0, s1),
        b.width == a.width,
        b.height == a.height,
        b.computer == a.computer,
        c.weapon_reverted(&b, WeaponToken::Upbyside),
    ensures
        forall|x: int, y: int| #[trigger] c.at(x, y) == a.at(x, y),
{
    assert forall|x: int, y: int| #[trigger] c.at(x, y) == a.at(x, y) by {
        if !a.computer {
            assert(c.at(x, y) == b.at(x, a.height - 1 - y));
            assert(b.at(x, a.height - 1 - y) == a.at(x, a.height - 1 - (a.height - 1 - y)));
        } else {
            assert(c.at(x, y) == b.at(x, y));
        }
    }
}

/// Flip Out twice gives the board back.
pub proof fn lemma_flip_out_twice(a: Board, b: Board, c: Board, s0: u64, s1: u64, s2: u64)
    requires
        b.weapon_effect(&a, WeaponToken::FlipOut, s0, s1),
        b.width == a.width,
        c.weapon_effect(&b, WeaponToken::FlipOut, s1, s2),
    ensures
        forall|x: int, y: int| #[trigger] c.at(x, y) == a.at(x, y),
        s2 == s0,
{
    assert forall|x: int, y: int| #[trigger] c.at(x, y) == a.at(x, y) by {
        assert(c.at(x, y) == b.at(b.width - 1 - x, y));
        assert(b.at(b.width - 1 - x, y) == a.at(a.width - 1 - (b.width - 1 - x), y));
    }
}

/// Swapping squares with the other board twice gives both boards their squares back.
pub proof fn lemma_swap_twice(a: Board, b: Board, a1: Board, b1: Board, a2: Board, b2: Board)
    requires
        a1.grid() == b.grid(),
        b1.grid() == a.grid(),
        a2.grid() == b1.grid(),
        b2.grid() == a1.grid(),
    ensures
        a2.grid() == a.grid(),
        b2.grid() == b.grid(),
{
}

} // verus!
