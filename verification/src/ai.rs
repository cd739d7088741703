//! The computer player's board reading: the top of the stack, the integer
//! features its placement heuristics weigh (column tops, roughness, holes,
//! lines), and the steering of a piece to the placement it chose.

use vstd::prelude::*;
use crate::board::Board;
use crate::constants::{BT_BOARD_HGT, BT_BOARD_WTH};
use crate::bazaar::{can_buy, stocked};
use crate::engine::{engages, fast, fired, shifted, turned_current, Engine, Phase};
use crate::policy::cost;
use crate::weapons::{token_at, WeaponToken};
use crate::keyframe::Score;

verus! {

/// The computer's difficulty ladder: its per-move delays in milliseconds,
/// from Comatose to Bionic.
pub const AI_LEVELS: [i32; 15] = [4000, 3000, 2000, 1500, 1250, 1000, 750, 550, 400, 350, 300, 225, 100, 10, 0];

/// Milliseconds between the computer's weapon launches.
pub const AI_LAUNCH_PERIOD_MS: i32 = 4000;

/// The first row at or below `y` that holds a cell, or the height when none does.
pub open spec fn first_nonempty(b: &Board, y: int) -> int
    decreases b.height - y,
{
    if y < 0 || y >= b.height {
        b.height as int
    } else if b.row_nonempty(y) {
        y
    } else {
        first_nonempty(b, y + 1)
    }
}

proof fn lemma_first_nonempty(b: &Board, t: int, y: int)
    requires
        0 <= y <= t <= b.height,
        forall|r: int| 0 <= r < t ==> !b.row_nonempty(r),
        t < b.height ==> b.row_nonempty(t),
    ensures
        first_nonempty(b, y) == t,
    decreases t - y,
{
    if y < t {
        lemma_first_nonempty(b, t, y + 1);
    }
}

/// The highest occupied row of `board` (smallest y), or its height when empty.
pub fn board_top(board: &Board) -> (top: i32)
    requires
        board.wf(),
    ensures
        top == first_nonempty(board, 0),
        0 <= top <= board.height,
        forall|y: int| 0 <= y < top ==> !board.row_nonempty(y),
        top < board.height ==> board.row_nonempty(top as int),
{
    let h = board.height;
    let mut top = h;
    let mut x: i32 = 0;
    while x < board.width
        invariant
            board.wf(),
            h == board.height,
            0 <= x <= board.width,
            0 <= top <= h,
            forall|x2: int, y2: int| 0 <= x2 < x && 0 <= y2 < top ==> (#[trigger] board.at(x2, y2)) is None,
            top < h ==> board.row_nonempty(top as int),
        decreases board.width - x,
    {
        let mut y: i32 = 0;
        while y < h
            invariant
                board.wf(),
                h == board.height,
                0 <= x < board.width,
                0 <= y <= h,
                0 <= top <= h,
                forall|x2: int, y2: int| 0 <= x2 < x && 0 <= y2 < top ==> (#[trigger] board.at(x2, y2)) is None,
                forall|y2: int| 0 <= y2 < y ==> (#[trigger] board.at(x as int, y2)) is None,
                top < h ==> board.row_nonempty(top as int),
            ensures
                0 <= top <= h,
                forall|x2: int, y2: int| 0 <= x2 <= x && 0 <= y2 < top ==> (#[trigger] board.at(x2, y2)) is None,
                top < h ==> board.row_nonempty(top as int),
            decreases h - y,
        {
            if board.occupied(x, y) {
                if y < top {
                    top = y;
                }
                assert(board.row_nonempty(y as int));
                break;
            }
            y = y + 1;
        }
        x = x + 1;
    }
    assert forall|y: int| 0 <= y < top implies !board.row_nonempty(y) by {
        if board.row_nonempty(y) {
            let x2 = choose|x2: int| 0 <= x2 < board.width && (#[trigger] board.at(x2, y)) is Some;
            assert(board.at(x2, y) is None);
        }
    }
    proof {
        lemma_first_nonempty(board, top as int, 0);
    }
    top
}

/// The top of column `x` at or below row `y`: the first filled row, or the
/// board height when there is none.
pub open spec fn col_top(b: &Board, x: int, y: int) -> int
    decreases b.height - y,
{
    if y >= b.height {
        b.height as int
    } else if b.at(x, y) is Some {
        y
    } else {
        col_top(b, x, y + 1)
    }
}

/// The squared step from column `x - 1` to column `x` (column 0 is compared
/// with column 1).
pub open spec fn step_sq(tops: Seq<i32>, x: int) -> int {
    let prev = if x == 0 { tops[1] } else { tops[x - 1] };
    (tops[x] - prev) * (tops[x] - prev)
}

/// Sum of the squared steps of the first `n` columns.
pub open spec fn steps_sq(tops: Seq<i32>, n: int) -> int
    decreases n,
{
    if n <= 0 {
        0
    } else {
        steps_sq(tops, n - 1) + step_sq(tops, n - 1)
    }
}

/// The roughness of the surface: the squared steps of every column, the last
/// one counted twice.
pub open spec fn roughness_spec(tops: Seq<i32>) -> int {
    steps_sq(tops, tops.len() as int) + step_sq(tops, tops.len() - 1)
}

/// Row `y` of board `b` is reached from the left of column `lx + 1`: scanning
/// left from `lx`, an empty square that is the wall column or sits under an
/// open column top comes before any filled square.
pub open spec fn escapes_left(b: &Board, tops: Seq<i32>, lx: int, y: int) -> bool
    decreases lx,
{
    if lx < 0 {
        false
    } else if b.at(lx, y) is Some {
        false
    } else if lx == 0 {
        true
    } else if tops[lx] > y {
        true
    } else {
        escapes_left(b, tops, lx - 1, y)
    }
}

/// The same scan to the right, from column `rx`.
pub open spec fn escapes_right(b: &Board, tops: Seq<i32>, rx: int, y: int) -> bool
    decreases b.width - rx,
{
    if rx >= b.width {
        false
    } else if b.at(rx, y) is Some {
        false
    } else if rx == b.width - 1 {
        true
    } else if tops[rx] > y {
        true
    } else {
        escapes_right(b, tops, rx + 1, y)
    }
}

/// Square `(k, y)` is an opening of row `y` for a scan between columns `lo`
/// and `hi` (inclusive): every square of the row from `lo` to `hi` is empty,
/// and `k` is a wall column (0 or the last) or lies under an open column
/// top.
pub open spec fn row_opening(b: &Board, tops: Seq<i32>, lo: int, hi: int, k: int, y: int) -> bool {
    &&& 0 <= lo <= k <= hi < b.width
    &&& (forall|m: int| lo <= m <= hi ==> (#[trigger] b.at(m, y)) is None)
    &&& (k == 0 || k == b.width - 1 || tops[k] > y)
}

/// The scan to the right finds an opening exactly when there is one: row `y`
/// escapes to the right of column `rx - 1` if and only if some square `k` at
/// or right of `rx`, with every square from `rx` to `k` empty, is the last
/// column or lies under an open column top.
pub proof fn lemma_escapes_right_iff(b: &Board, tops: Seq<i32>, rx: int, y: int)
    requires
        1 <= rx,
    ensures
        escapes_right(b, tops, rx, y) <==> exists|k: int| #[trigger] row_opening(b, tops, rx, k, k, y),
    decreases b.width - rx,
{
    if rx >= b.width {
        if exists|k: int| #[trigger] row_opening(b, tops, rx, k, k, y) {
            let k = choose|k: int| #[trigger] row_opening(b, tops, rx, k, k, y);
            assert(false);
        }
    } else if b.at(rx, y) is Some {
        if exists|k: int| #[trigger] row_opening(b, tops, rx, k, k, y) {
            let k = choose|k: int| #[trigger] row_opening(b, tops, rx, k, k, y);
            assert(b.at(rx, y) is None);
        }
    } else if rx == b.width - 1 || tops[rx] > y {
        assert(row_opening(b, tops, rx, rx, rx, y));
    } else {
        lemma_escapes_right_iff(b, tops, rx + 1, y);
        if escapes_right(b, tops, rx + 1, y) {
            let k = choose|k: int| #[trigger] row_opening(b, tops, rx + 1, k, k, y);
            assert(row_opening(b, tops, rx, k, k, y));
        }
        if exists|k: int| #[trigger] row_opening(b, tops, rx, k, k, y) {
            let k = choose|k: int| #[trigger] row_opening(b, tops, rx, k, k, y);
            assert(k != rx);
            assert(row_opening(b, tops, rx + 1, k, k, y));
        }
    }
}

/// The scan to the left finds an opening exactly when there is one: row `y`
/// escapes to the left of column `lx + 1` if and only if some square `k` at
/// or left of `lx`, with every square from `k` to `lx` empty, is column 0 or
/// lies under an open column top.
pub proof fn lemma_escapes_left_iff(b: &Board, tops: Seq<i32>, lx: int, y: int)
    requires
        lx < b.width - 1,
    ensures
        escapes_left(b, tops, lx, y) <==> exists|k: int| #[trigger] row_opening(b, tops, k, lx, k, y),
    decreases lx,
{
    if lx < 0 {
        if exists|k: int| #[trigger] row_opening(b, tops, k, lx, k, y) {
            let k = choose|k: int| #[trigger] row_opening(b, tops, k, lx, k, y);
            assert(false);
        }
    } else if b.at(lx, y) is Some {
        if exists|k: int| #[trigger] row_opening(b, tops, k, lx, k, y) {
            let k = choose|k: int| #[trigger] row_opening(b, tops, k, lx, k, y);
            assert(b.at(lx, y) is None);
        }
    } else if lx == 0 || tops[lx] > y {
        assert(row_opening(b, tops, lx, lx, lx, y));
    } else {
        lemma_escapes_left_iff(b, tops, lx - 1, y);
        if escapes_left(b, tops, lx - 1, y) {
            let k = choose|k: int| #[trigger] row_opening(b, tops, k, lx - 1, k, y);
            assert(row_opening(b, tops, k, lx, k, y));
        }
        if exists|k: int| #[trigger] row_opening(b, tops, k, lx, k, y) {
            let k = choose|k: int| #[trigger] row_opening(b, tops, k, lx, k, y);
            assert(k != lx);
            assert(row_opening(b, tops, k, lx - 1, k, y));
        }
    }
}

/// The holes of column `x` from row `y` down: each empty square below the
/// column's top, as its depth under the top and whether it is open to a side.
pub open spec fn col_holes(b: &Board, tops: Seq<i32>, x: int, y: int) -> Seq<(i32, bool)>
    decreases b.height - y,
{
    if y >= b.height {
        seq![]
    } else {
        let rest = col_holes(b, tops, x, y + 1);
        if b.at(x, y) is Some {
            rest
        } else {
            seq![((y - tops[x] - 1) as i32, escapes_left(b, tops, x - 1, y) || escapes_right(b, tops, x + 1, y))] + rest
        }
    }
}

/// The holes of columns `x..`, column by column.
pub open spec fn holes_from(b: &Board, tops: Seq<i32>, x: int) -> Seq<(i32, bool)>
    decreases b.width - x,
{
    if x >= b.width || x < 0 {
        seq![]
    } else if tops[x] >= b.height {
        holes_from(b, tops, x + 1)
    } else {
        col_holes(b, tops, x, tops[x] + 1) + holes_from(b, tops, x + 1)
    }
}

/// Number of full rows among the first `n`.
pub open spec fn full_rows(b: &Board, n: int) -> int
    decreases n,
{
    if n <= 0 {
        0
    } else {
        full_rows(b, n - 1) + if b.row_full(n - 1) { 1int } else { 0int }
    }
}

/// The integer features of a board that the placement heuristics weigh.
pub struct BoardFeatures {
    /// Per column, the first filled row (the board height for an empty column).
    pub tops: Vec<i32>,
    /// The smallest column top.
    pub top: i32,
    /// Sum of squared steps between neighboring column tops (the first column
    /// compared with the second, the last step counted twice).
    pub roughness: i128,
    /// Every hole (an empty square below its column's top), column by column
    /// from the top down: its depth below the first box above it, and whether
    /// it is open to a side.
    pub holes: Vec<(i32, bool)>,
    /// Number of full rows.
    pub lines: i32,
}

fn column_top(board: &Board, x: i32) -> (t: i32)
    requires
        board.wf(),
        0 <= x < board.width,
    ensures
        t == col_top(board, x as int, 0),
        0 <= t <= board.height,
{
    let h = board.height;
    let mut y: i32 = 0;
    while y < h
        invariant
            board.wf(),
            h == board.height,
            0 <= x < board.width,
            0 <= y <= h,
            col_top(board, x as int, 0) == col_top(board, x as int, y as int),
        decreases h - y,
    {
        if board.occupied(x, y) {
            return y;
        }
        y = y + 1;
    }
    h
}

fn column_tops(board: &Board) -> (tops: Vec<i32>)
    requires
        board.wf(),
    ensures
        tops@.len() == board.width,
        forall|x: int| 0 <= x < board.width ==> #[trigger] tops@[x] == col_top(board, x, 0),
        forall|x: int| 0 <= x < board.width ==> 0 <= #[trigger] tops@[x] <= board.height,
{
    let mut tops: Vec<i32> = Vec::new();
    let mut x: i32 = 0;
    while x < board.width
        invariant
            board.wf(),
            0 <= x <= board.width,
            tops@.len() == x,
            forall|x2: int| 0 <= x2 < x ==> #[trigger] tops@[x2] == col_top(board, x2, 0),
            forall|x2: int| 0 <= x2 < x ==> 0 <= #[trigger] tops@[x2] <= board.height,
        decreases board.width - x,
    {
        let t = column_top(board, x);
        tops.push(t);
        x = x + 1;
    }
    tops
}

fn step_sq_exec(tops: &Vec<i32>, x: usize) -> (r: i128)
    requires
        2 <= tops@.len(),
        x < tops@.len(),
        forall|k: int| 0 <= k < tops@.len() ==> 0 <= #[trigger] tops@[k] <= i32::MAX,
    ensures
        r == step_sq(tops@, x as int),
        0 <= r <= 0x4000_0000_0000_0000,
{
    let prev = if x == 0 { tops[1] } else { tops[x - 1] };
    let d = (tops[x] as i128) - (prev as i128);
    assert(d * d <= 0x4000_0000_0000_0000) by (nonlinear_arith)
        requires
            -0x8000_0000 <= d <= 0x8000_0000,
    ;
    assert(d * d >= 0) by (nonlinear_arith);
    d * d
}

fn roughness(tops: &Vec<i32>) -> (r: i128)
    requires
        2 <= tops@.len() <= i32::MAX,
        forall|k: int| 0 <= k < tops@.len() ==> 0 <= #[trigger] tops@[k] <= i32::MAX,
    ensures
        r == roughness_spec(tops@),
{
    let n = tops.len();
    let mut acc: i128 = 0;
    let mut x: usize = 0;
    while x < n
        invariant
            n == tops@.len(),
            2 <= n <= i32::MAX,
            forall|k: int| 0 <= k < tops@.len() ==> 0 <= #[trigger] tops@[k] <= i32::MAX,
            0 <= x <= n,
            acc == steps_sq(tops@, x as int),
            0 <= acc <= x * 0x4000_0000_0000_0000,
        decreases n - x,
    {
        let sq = step_sq_exec(tops, x);
        assert(acc + sq <= (x + 1) * 0x4000_0000_0000_0000) by (nonlinear_arith)
            requires
                acc <= x * 0x4000_0000_0000_0000,
                sq <= 0x4000_0000_0000_0000,
        ;
        assert((x + 1) * 0x4000_0000_0000_0000 <= 0x8000_0000 * 0x4000_0000_0000_0000) by (nonlinear_arith)
            requires
                x + 1 <= 0x8000_0000,
        ;
        acc = acc + sq;
        x = x + 1;
    }
    let last = step_sq_exec(tops, n - 1);
    assert(acc + last <= (n + 1) * 0x4000_0000_0000_0000) by (nonlinear_arith)
        requires
            acc <= n * 0x4000_0000_0000_0000,
            last <= 0x4000_0000_0000_0000,
    ;
    assert((n + 1) * 0x4000_0000_0000_0000 <= 0x8000_0000 * 0x4000_0000_0000_0000) by (nonlinear_arith)
        requires
            n + 1 <= 0x8000_0000,
    ;
    acc + last
}

fn open_left(board: &Board, tops: &Vec<i32>, x: i32, y: i32) -> (b: bool)
    requires
        board.wf(),
        tops@.len() == board.width,
        0 <= x < board.width,
        0 <= y < board.height,
    ensures
        b == escapes_left(board, tops@, x - 1, y as int),
{
    let mut lx = x - 1;
    while lx >= 0
        invariant
            board.wf(),
            tops@.len() == board.width,
            -1 <= lx < board.width,
            0 <= y < board.height,
            escapes_left(board, tops@, x - 1, y as int) == escapes_left(board, tops@, lx as int, y as int),
        decreases lx + 1,
    {
        if board.occupied(lx, y) {
            return false;
        }
        if lx == 0 {
            return true;
        }
        if tops[lx as usize] > y {
            return true;
        }
        lx = lx - 1;
    }
    false
}

fn open_right(board: &Board, tops: &Vec<i32>, x: i32, y: i32) -> (b: bool)
    requires
        board.wf(),
        tops@.len() == board.width,
        0 <= x < board.width,
        0 <= y < board.height,
    ensures
        b == escapes_right(board, tops@, x + 1, y as int),
{
    let w = board.width;
    let mut rx = x + 1;
    while rx < w
        invariant
            board.wf(),
            tops@.len() == board.width,
            w == board.width,
            0 <= rx <= w,
            0 <= y < board.height,
            escapes_right(board, tops@, x + 1, y as int) == escapes_right(board, tops@, rx as int, y as int),
        decreases w - rx,
    {
        if board.occupied(rx, y) {
            return false;
        }
        if rx == w - 1 {
            return true;
        }
        if tops[rx as usize] > y {
            return true;
        }
        rx = rx + 1;
    }
    false
}

fn collect_holes(board: &Board, tops: &Vec<i32>) -> (holes: Vec<(i32, bool)>)
    requires
        board.wf(),
        tops@.len() == board.width,
        forall|x: int| 0 <= x < board.width ==> #[trigger] tops@[x] == col_top(board, x, 0),
        forall|x: int| 0 <= x < board.width ==> 0 <= #[trigger] tops@[x] <= board.height,
    ensures
        holes@ == holes_from(board, tops@, 0),
{
    let w = board.width;
    let h = board.height;
    let mut holes: Vec<(i32, bool)> = Vec::new();
    let mut x: i32 = 0;
    while x < w
        invariant
            board.wf(),
            tops@.len() == board.width,
            forall|x2: int| 0 <= x2 < board.width ==> 0 <= #[trigger] tops@[x2] <= board.height,
            w == board.width,
            h == board.height,
            0 <= x <= w,
            holes@ + holes_from(board, tops@, x as int) == holes_from(board, tops@, 0),
        decreases w - x,
    {
        let col_top = tops[x as usize];
        if col_top < h {
            let ghost before = holes@;
            let mut y = col_top + 1;
            while y < h
                invariant
                    board.wf(),
                    tops@.len() == board.width,
                    w == board.width,
                    h == board.height,
                    0 <= x < w,
                    col_top == tops@[x as int],
                    0 <= col_top < h,
                    col_top + 1 <= y <= h,
                    holes@ + col_holes(board, tops@, x as int, y as int) == before + col_holes(board, tops@, x as int, col_top + 1),
                decreases h - y,
            {
                if !board.occupied(x, y) {
                    let open = open_left(board, tops, x, y) || open_right(board, tops, x, y);
                    let ghost prev = holes@;
                    holes.push((y - col_top - 1, open));
                    assert(holes@ + col_holes(board, tops@, x as int, y + 1) =~= prev + col_holes(board, tops@, x as int, y as int));
                }
                y = y + 1;
            }
            assert(col_holes(board, tops@, x as int, y as int) =~= Seq::<(i32, bool)>::empty());
            assert(holes@ =~= before + col_holes(board, tops@, x as int, col_top + 1));
            assert(holes@ + holes_from(board, tops@, x + 1) =~= before + holes_from(board, tops@, x as int));
        }
        x = x + 1;
    }
    assert(holes@ + holes_from(board, tops@, x as int) =~= holes@);
    holes
}

pub(crate) fn count_lines(board: &Board) -> (n: i32)
    requires
        board.wf(),
    ensures
        n == full_rows(board, board.height as int),
        0 <= n <= board.height,
{
    let w = board.width;
    let mut n: i32 = 0;
    let mut y: i32 = 0;
    while y < board.height
        invariant
            board.wf(),
            w == board.width,
            0 <= y <= board.height,
            n == full_rows(board, y as int),
            0 <= n <= y,
        decreases board.height - y,
    {
        let mut full = true;
        let mut x: i32 = 0;
        while x < w
            invariant
                board.wf(),
                w == board.width,
                0 <= y < board.height,
                0 <= x <= w,
                full == (forall|x2: int| 0 <= x2 < x ==> (#[trigger] board.at(x2, y as int)) is Some),
            decreases w - x,
        {
            if !board.occupied(x, y) {
                full = false;
            }
            x = x + 1;
        }
        if full {
            n = n + 1;
        }
        y = y + 1;
    }
    n
}

/// The integer features of `board` (see [`BoardFeatures`]); the board must be
/// at least two columns wide.
pub fn board_features(board: &Board) -> (f: BoardFeatures)
    requires
        board.wf(),
        board.width >= 2,
    ensures
        f.tops@.len() == board.width,
        forall|x: int| 0 <= x < board.width ==> #[trigger] f.tops@[x] == col_top(board, x, 0),
        forall|x: int| 0 <= x < board.width ==> f.top <= #[trigger] f.tops@[x],
        exists|x: int| 0 <= x < board.width && f.top == #[trigger] f.tops@[x],
        f.roughness == roughness_spec(f.tops@),
        f.holes@ == holes_from(board, f.tops@, 0),
        f.lines == full_rows(board, board.height as int),
{
    let tops = column_tops(board);
    let mut top = tops[0];
    let ghost mut at: int = 0;
    let mut x: usize = 1;
    while x < tops.len()
        invariant
            tops@.len() == board.width,
            1 <= x <= tops@.len(),
            forall|k: int| 0 <= k < x ==> top <= #[trigger] tops@[k],
            0 <= at < x,
            top == tops@[at],
        decreases tops@.len() - x,
    {
        if tops[x] < top {
            top = tops[x];
            proof {
                at = x as int;
            }
        }
        x = x + 1;
    }
    let roughness = roughness(&tops);
    let holes = collect_holes(board, &tops);
    let lines = count_lines(board);
    let f = BoardFeatures { tops, top, roughness, holes, lines };
    assert(f.top == f.tops@[at]);
    f
}

/// Total column height of the first `n` columns of a board `h` rows high.
pub open spec fn height_sum(tops: Seq<i32>, h: int, n: int) -> int
    decreases n,
{
    if n <= 0 {
        0
    } else {
        height_sum(tops, h, n - 1) + (h - tops[n - 1])
    }
}

/// Sum of the height differences between neighbors among the first `n` columns.
pub open spec fn bumpiness(tops: Seq<i32>, n: int) -> int
    decreases n,
{
    if n <= 1 {
        0
    } else {
        let d = tops[n - 1] - tops[n - 2];
        bumpiness(tops, n - 1) + if d >= 0 { d } else { -d }
    }
}

/// The surface of a stack from its column tops (board `height` rows high):
/// the total column height and the bumpiness.
pub fn surface(tops: &Vec<i32>, height: i32) -> (r: (i64, i64))
    requires
        tops@.len() <= i32::MAX,
        height >= 0,
        forall|x: int| 0 <= x < tops@.len() ==> 0 <= #[trigger] tops@[x] <= height,
    ensures
        r.0 == height_sum(tops@, height as int, tops@.len() as int),
        r.1 == bumpiness(tops@, tops@.len() as int),
{
    let n = tops.len();
    let mut agg: i64 = 0;
    let mut bump: i64 = 0;
    let mut x: usize = 0;
    while x < n
        invariant
            n == tops@.len(),
            n <= i32::MAX,
            height >= 0,
            forall|k: int| 0 <= k < tops@.len() ==> 0 <= #[trigger] tops@[k] <= height,
            0 <= x <= n,
            agg == height_sum(tops@, height as int, x as int),
            bump == bumpiness(tops@, x as int),
            0 <= agg <= x * 0x8000_0000,
            0 <= bump <= x * 0x8000_0000,
        decreases n - x,
    {
        agg = agg + (height - tops[x]) as i64;
        if x >= 1 {
            let d = tops[x] - tops[x - 1];
            bump = bump + if d >= 0 { d as i64 } else { -(d as i64) };
        }
        x = x + 1;
    }
    (agg, bump)
}

/// Where to put a piece: the leftmost x of its grid when it locks, and how many
/// clockwise turns from its spawn orientation.
#[derive(Clone, Copy, Debug, PartialEq, Eq, Structural)]
pub struct Placement {
    pub x: i32,
    pub orientation: i32,
}

/// The computer player. It carries no state of its own: each turn it reads the
/// game, finds the best placement and steers the piece there.
#[derive(Clone, Copy, Debug)]
pub struct Computer {
    _priv: (),
}

impl Computer {
    /// A computer player.
    pub fn new() -> Computer {
        Computer { _priv: () }
    }
}

/// A turn request as the engine answers it: nothing while paused or over.
pub open spec fn rotated(e: Engine) -> Engine {
    if e.paused || e.phase == Phase::Over {
        e
    } else {
        turned_current(e)
    }
}

/// A sideways move by `dx` as the engine answers it: nothing while paused or
/// over.
pub open spec fn moved(e: Engine, dx: int) -> Engine {
    if e.paused || e.phase == Phase::Over {
        e
    } else {
        shifted(e, dx)
    }
}

/// Up to `n` turn requests toward orientation `o`, stopping without a falling
/// piece or once it faces `o`.
pub open spec fn turned_toward(e: Engine, o: int, n: int) -> Engine
    decreases n,
{
    if n <= 0 {
        e
    } else {
        match e.current {
            None => e,
            Some(p) => if p.orientation == o {
                e
            } else {
                turned_toward(rotated(e), o, n - 1)
            },
        }
    }
}

/// Up to `n` requests toward column `x` (a right move while left of it, a left
/// move while right of it), stopping without a falling piece or once there.
pub open spec fn moved_toward(e: Engine, x: int, n: int) -> Engine
    decreases n,
{
    if n <= 0 {
        e
    } else {
        match e.current {
            None => e,
            Some(p) => if p.x == x {
                e
            } else if p.x < x {
                moved_toward(moved(e, e.right_x as int), x, n - 1)
            } else {
                moved_toward(moved(e, e.left_x as int), x, n - 1)
            },
        }
    }
}

/// The computer's drop request on engine `e`.
pub open spec fn ai_dropped(e: Engine) -> Engine {
    if engages(e) {
        Engine { score: Score { score: (e.score.score + BT_BOARD_HGT / 2) as i64, ..e.score }, ..fast(e) }
    } else {
        fast(e)
    }
}

impl Computer {
    /// Steer the falling piece to placement `pl` and drop it: up to as many
    /// turns as the piece has orientations (at least one) until it faces
    /// `pl.orientation`, then up to twice the board's width of moves until it
    /// is at column `pl.x`, then the computer's drop. Nothing once the game is
    /// over or without a falling piece.
    pub fn steer(&self, e: &mut Engine, pl: Placement)
        requires
            old(e).wf(),
            old(e).sliding <= i32::MAX - 2 * BT_BOARD_WTH,
            old(e).score.score <= i64::MAX - BT_BOARD_HGT / 2,
        ensures
            final(e).wf(),
            (old(e).phase == Phase::Over || old(e).current is None) ==> *final(e) == *old(e),
            (old(e).current matches Some(p) ==> old(e).phase != Phase::Over ==> *final(e) == ai_dropped(
                moved_toward(
                    turned_toward(*old(e), pl.orientation as int, if p.orientations >= 1 { p.orientations as int } else { 1 }),
                    pl.x as int,
                    2 * BT_BOARD_WTH,
                ),
            )),
    {
        if e.phase == Phase::Over {
            return;
        }
        let n = match &e.current {
            Some(p) => if p.orientations >= 1 { p.orientations } else { 1 },
            None => {
                return;
            },
        };
        let ghost e0 = *e;
        let mut i: i32 = 0;
        while i < n
            invariant_except_break
                turned_toward(*e, pl.orientation as int, (n - i) as int) == turned_toward(e0, pl.orientation as int, n as int),
            invariant
                e.wf(),
                0 <= i <= n,
                e.sliding == e0.sliding,
                e.score == e0.score,
                e.board.width == BT_BOARD_WTH,
            ensures
                *e == turned_toward(e0, pl.orientation as int, n as int),
                e.wf(),
                e.sliding == e0.sliding,
                e.score == e0.score,
            decreases n - i,
        {
            let o = match &e.current {
                Some(p) => p.orientation,
                None => {
                    break;
                },
            };
            if o == pl.orientation {
                break;
            }
            e.rotate();
            i = i + 1;
        }
        let ghost e1 = *e;
        let cap: i32 = e.board.width * 2;
        let mut k: i32 = 0;
        while k < cap
            invariant_except_break
                moved_toward(*e, pl.x as int, (cap - k) as int) == moved_toward(e1, pl.x as int, cap as int),
            invariant
                e.wf(),
                0 <= k <= cap,
                cap == 2 * BT_BOARD_WTH,
                e.sliding <= e1.sliding + k,
                e1.sliding <= i32::MAX - 2 * BT_BOARD_WTH,
                e.score == e0.score,
            ensures
                *e == moved_toward(e1, pl.x as int, cap as int),
                e.wf(),
                e.score == e0.score,
            decreases cap - k,
        {
            let px = match &e.current {
                Some(p) => p.x,
                None => {
                    break;
                },
            };
            if px == pl.x {
                break;
            }
            if px < pl.x {
                e.move_right();
            } else {
                e.move_left();
            }
            k = k + 1;
        }
        e.ai_begin_drop();
    }
}

/// Engine `e` is engine `o` after an attempt to buy weapon `t` that
/// succeeded (`ok`) or not (see [`Engine::buy_weapon`]).
pub open spec fn buy_attempt(e: Engine, o: Engine, t: WeaponToken, ok: bool) -> bool {
    let carter = o.on(WeaponToken::Carter);
    &&& ok == can_buy(o.arsenal.tokens(), o.arsenal.quantities(), o.score.funds as int, t, carter, o.in_bazaar)
    &&& ok ==> e.score.funds == o.score.funds - cost(t, carter) && (e.arsenal.tokens(), e.arsenal.quantities()) == stocked(
        o.arsenal.tokens(),
        o.arsenal.quantities(),
        t,
    )
    &&& !ok ==> e == o
    &&& e == Engine { arsenal: e.arsenal, score: Score { funds: e.score.funds, ..o.score }, ..o }
}

/// `run` steps through attempts to buy weapons 0, 1, ... in weapon order,
/// with outcomes `oks`.
pub open spec fn shop_run(run: Seq<Engine>, oks: Seq<bool>) -> bool {
    &&& run.len() == oks.len() + 1
    &&& forall|k: int| 0 <= k < oks.len() ==> buy_attempt(run[k + 1], run[k], token_at(k), #[trigger] oks[k])
}

/// How many outcomes succeeded.
pub open spec fn count_true(s: Seq<bool>) -> int
    decreases s.len(),
{
    if s.len() == 0 {
        0
    } else {
        count_true(s.drop_last()) + if s.last() { 1int } else { 0 }
    }
}

/// The computer's shopping: engine `e` is engine `o` after attempts to buy
/// each weapon in weapon order, stopping once five were bought, and then
/// leaving the bazaar.
pub open spec fn shopped(e: Engine, o: Engine) -> bool {
    exists|run: Seq<Engine>, oks: Seq<bool>|
        #[trigger] shop_run(run, oks) && run[0] == o && oks.len() <= 34 && count_true(oks) <= 5 && (oks.len() < 34
            ==> count_true(oks) == 5) && (oks.len() > 0 ==> count_true(oks.drop_last()) < 5) && e == Engine {
            in_bazaar: false,
            ..run.last()
        }
}

/// The first arsenal slot at or after `i` holding a weapon; 10 when none does.
pub open spec fn first_loaded(tokens: Seq<Option<WeaponToken>>, i: int) -> int
    decreases 10 - i,
{
    if i >= 10 {
        10
    } else if tokens[i] is Some {
        i
    } else {
        first_loaded(tokens, i + 1)
    }
}

impl Computer {
    /// Shop in the bazaar: try to buy each weapon in weapon order until five
    /// were bought, then leave (see [`shopped`]).
    pub fn shop(&self, e: &mut Engine)
        requires
            old(e).wf(),
        ensures
            final(e).wf(),
            shopped(*final(e), *old(e)),
    {
        let ghost o = *e;
        let ghost mut run: Seq<Engine> = seq![*e];
        let ghost mut oks: Seq<bool> = seq![];
        let mut bought: i32 = 0;
        let mut i: i32 = 0;
        while i < 34
            invariant
                e.wf(),
                0 <= i <= 34,
                oks.len() == i,
                shop_run(run, oks),
                run[0] == o,
                run.last() == *e,
                bought == count_true(oks),
                0 <= bought <= 5,
                i > 0 ==> count_true(oks.drop_last()) < 5,
            ensures
                e.wf(),
                oks.len() <= 34,
                shop_run(run, oks),
                run[0] == o,
                run.last() == *e,
                count_true(oks) <= 5,
                oks.len() < 34 ==> count_true(oks) == 5,
                oks.len() > 0 ==> count_true(oks.drop_last()) < 5,
            decreases 34 - i,
        {
            if bought >= 5 {
                break;
            }
            let t = match WeaponToken::from_index(i) {
                Some(t) => t,
                None => {
                    break;
                },
            };
            let ghost before = *e;
            let ok = e.buy_weapon(t);
            proof {
                let run2 = run.push(*e);
                let oks2 = oks.push(ok);
                assert forall|k: int| 0 <= k < oks2.len() implies buy_attempt(run2[k + 1], run2[k], token_at(k), #[trigger] oks2[k]) by {
                    if k < oks.len() {
                        assert(oks2[k] == oks[k]);
                        assert(buy_attempt(run[k + 1], run[k], token_at(k), oks[k]));
                    }
                }
                assert(oks2.drop_last() =~= oks);
                run = run2;
                oks = oks2;
            }
            if ok {
                bought = bought + 1;
            }
            i = i + 1;
        }
        e.leave_bazaar();
    }

    /// Fire the first arsenal slot holding a weapon, if any (see
    /// [`Engine::launch_weapon`]).
    pub fn launch_first(&self, e: &mut Engine)
        requires
            old(e).wf(),
        ensures
            final(e).wf(),
            first_loaded(old(e).arsenal.tokens(), 0) < 10 ==> fired(*final(e), *old(e), first_loaded(old(e).arsenal.tokens(), 0)),
            first_loaded(old(e).arsenal.tokens(), 0) == 10 ==> *final(e) == *old(e),
    {
        let ghost e0 = *e;
        let mut slot: usize = 0;
        while slot < 10
            invariant
                e.wf(),
                *e == e0,
                e0 == *old(e),
                0 <= slot <= 10,
                first_loaded(e.arsenal.tokens(), slot as int) == first_loaded(e.arsenal.tokens(), 0),
            decreases 10 - slot,
        {
            if e.arsenal.token(slot).is_some() {
                assert(first_loaded(e.arsenal.tokens(), slot as int) == slot);
                e.launch_weapon(slot);
                return;
            }
            slot = slot + 1;
        }
    }
}

} // verus!
