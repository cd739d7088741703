//! Every hard-drop landing of a piece, as the computer's placement search
//! weighs them. For each orientation the piece is turned that many times on an
//! empty scratch board (stopping at the first turn that does not fit), then
//! tried column by column, centre-out from the middle, right before left at
//! each distance. Where it fits at the top row it drops as far as it goes, is
//! locked in, and the full rows it completed are counted and cleared.

use vstd::prelude::*;
use crate::ai::{count_lines, full_rows, Placement};
use crate::board::{lemma_tally_bounded, Board, LineClear};
use crate::constants::BT_BAD_MOVE;
use crate::piece::Piece;
use crate::weapons::WeaponToken;

verus! {

/// One landing: where the piece went, the piece as it locked, the board with
/// it locked in and full rows cleared, and how many rows it completed.
pub struct Landing {
    pub placement: Placement,
    pub piece: Piece,
    pub board: Board,
    pub lines: i32,
}

/// The columns tried at distance `d` and beyond from the centre `c` of a board
/// `w` wide: the one to the right, then the one to the left, each when it lies
/// in `-7..w`; the search ends once neither does.
pub open spec fn cands_from(c: int, w: int, d: int) -> Seq<i32>
    decreases c + w + 9 - d,
{
    if d < 1 || d > c + w + 8 || (c - d < -7 && c + d >= w) {
        seq![]
    } else {
        let right = if -7 <= c + d < w { seq![(c + d) as i32] } else { seq![] };
        let left = if -7 <= c - d < w { seq![(c - d) as i32] } else { seq![] };
        right + left + cands_from(c, w, d + 1)
    }
}

/// The columns tried on a board `w` wide: the centre first, then centre-out.
pub open spec fn candidates(w: int) -> Seq<i32> {
    seq![(w / 2) as i32] + cands_from(w / 2, w, 1)
}

/// An empty scratch board 20 wider and taller than a `w` by `h` board.
pub open spec fn scratch_ok(s: &Board, w: int, h: int) -> bool {
    &&& s.wf()
    &&& s.width == w + 20
    &&& s.height == h + 20
    &&& s.active@ == Seq::new(34, |i: int| 0i32)
    &&& forall|x: int, y: int| #[trigger] s.at(x, y) is None
}

/// The piece after one clockwise turn attempt on board `b`, and whether it turned.
pub open spec fn turn_once(p: Piece, b: Board) -> (Piece, bool) {
    choose|q: Piece, r: bool| q.rotated_from(&p, &b, false, r)
}

/// The piece after up to `n` clockwise turns on `b`, stopping at the first
/// that does not fit.
pub open spec fn turned_n(p: Piece, b: Board, n: int) -> Piece
    decreases n,
{
    if n <= 0 {
        p
    } else {
        let (q, r) = turn_once(p, b);
        if r {
            turned_n(q, b, n - 1)
        } else {
            q
        }
    }
}

/// The piece turned for orientation `o`: placed on the scratch board (where it
/// fits) and turned `o` times.
pub open spec fn turned(p: Piece, s: Board, o: int) -> Piece {
    let p0 = if p.fits(&s, 10, 10) { Piece { x: 10, y: 10, ..p } } else { p };
    turned_n(p0, s, o)
}

/// The placements, among the first `n` candidate columns, where piece `q`
/// fits at the top row.
pub open spec fn fitting(q: Piece, b: Board, cs: Seq<i32>, o: i32, n: int) -> Seq<Placement>
    decreases n,
{
    if n <= 0 {
        seq![]
    } else {
        let rest = fitting(q, b, cs, o, n - 1);
        if q.fits(&b, cs[n - 1] as int, 0) {
            rest.push(Placement { x: cs[n - 1], orientation: o })
        } else {
            rest
        }
    }
}

/// The placements of orientations `o..`, orientation by orientation.
pub open spec fn placements(b: Board, p: Piece, s: Board, o: int) -> Seq<Placement>
    decreases p.orientations - o,
{
    if o >= p.orientations {
        seq![]
    } else {
        let cs = candidates(b.width as int);
        fitting(turned(p, s, o), b, cs, o as i32, cs.len() as int) + placements(b, p, s, o + 1)
    }
}

/// The row a piece dropped from row `y` in column `c` comes to rest on (no
/// lower than nine rows below the board, where even a Fall Out floor holds).
pub open spec fn drop_from(q: Piece, b: Board, c: int, y: int) -> int
    decreases b.height + 9 - y,
{
    if y >= b.height + 9 || !q.fits(&b, c, y + 1) {
        y
    } else {
        drop_from(q, b, c, y + 1)
    }
}

/// Board `after` is board `before` with piece `p` locked in: its boxes written
/// in, the bad-move check for its frame run, the fresh squares forgotten.
pub open spec fn locked_in(p: Piece, before: &Board, after: &Board) -> bool {
    &&& after.wf()
    &&& after.width == before.width
    &&& after.height == before.height
    &&& after.active == before.active
    &&& after.upside == before.upside
    &&& after.computer == before.computer
    &&& after.fresh().len() == 0
    &&& exists|mid: Board|
        #[trigger] p.stamped_into(&mid, before) && after.grid() == mid.grid() && after.idiot == (mid.idiot
            || mid.bad_move_at(p.x as int, p.y as int)) && after.reason == if mid.bad_move_at(p.x as int, p.y as int) {
            BT_BAD_MOVE
        } else {
            mid.reason
        }
}

/// A landing is what its placement makes of board `b` and piece `p` (turned on
/// scratch board `s`): the turned piece dropped in its column from the top, the
/// board it locks into with its full rows counted, then cleared.
pub open spec fn landing_ok(e: Landing, b: &Board, p: Piece, s: &Board) -> bool {
    let c = e.placement.x as int;
    let q = turned(p, *s, e.placement.orientation as int);
    let y = drop_from(q, *b, c, 0);
    &&& e.piece == Piece { x: c as i32, y: y as i32, ..q }
    &&& e.board.wf()
    &&& e.board.width == b.width
    &&& e.board.height == b.height
    &&& exists|l: Board|
        #[trigger] locked_in(e.piece, b, &l) && e.lines == full_rows(&l, b.height as int) && exists|r: LineClear|
            #[trigger] e.board.lines_cleared(&l, r)
}

/// A turn attempt has exactly one outcome.
pub proof fn lemma_turn_unique(a: Piece, b: Piece, o: Piece, board: Board, ra: bool, rb: bool)
    requires
        a.rotated_from(&o, &board, false, ra),
        b.rotated_from(&o, &board, false, rb),
    ensures
        a == b,
        ra == rb,
{
    assert forall|i: int| 0 <= i < 8 implies a.cells[i] =~= b.cells[i] by {
        assert forall|j: int| 0 <= j < 8 implies a.cells[i][j] == b.cells[i][j] by {
            assert(a.cells[i][j] == b.cells[i][j]);
        }
    }
    assert(a.cells =~= b.cells);
}

/// The scratch-board turn the code performed is the one the spec names.
pub proof fn lemma_turn_once(p: Piece, q: Piece, b: Board, r: bool)
    requires
        q.rotated_from(&p, &b, false, r),
    ensures
        turn_once(p, b) == (q, r),
{
    let (c, cr) = turn_once(p, b);
    lemma_turn_unique(c, q, p, b, cr, r);
}

/// Every box of the piece's grid is worth between 0 and 255.
pub open spec fn boxes_ok(p: Piece) -> bool {
    forall|i: int, j: int| 0 <= i < 8 && 0 <= j < 8 ==> (#[trigger] p.cells[i][j] matches Some(c) ==> 0 <= c.value() <= 255)
}

proof fn lemma_moved_ok(p: Piece, moves: Seq<(usize, usize, usize, usize)>, n: int, i: int, j: int)
    requires
        boxes_ok(p),
    ensures
        crate::piece::moved(&p, moves, n, i, j) matches Some(c) ==> 0 <= c.value() <= 255,
    decreases n,
{
    if n > 0 {
        let m = moves[n - 1];
        if i == m.2 && j == m.3 {
        } else if i == m.0 && j == m.1 {
            lemma_moved_ok(p, moves, n - 1, m.2 as int, m.3 as int);
        } else {
            lemma_moved_ok(p, moves, n - 1, i, j);
        }
    } else {
        if 0 <= i < 8 && 0 <= j < 8 {
            assert(p.sq(i, j) == p.cells[i][j]);
        }
    }
}

/// A turn only moves boxes around.
pub proof fn lemma_turn_keeps_boxes(o: Piece, q: Piece, b: Board, r: bool)
    requires
        q.rotated_from(&o, &b, false, r),
        boxes_ok(o),
    ensures
        boxes_ok(q),
{
    assert forall|i: int, j: int| 0 <= i < 8 && 0 <= j < 8 implies (#[trigger] q.cells[i][j] matches Some(c) ==> 0
        <= c.value() <= 255) by {
        if r {
            match o.kind {
                crate::piece::PieceKind::Wall => {
                    lemma_moved_ok(o, crate::piece::wall_plan(o.next_state(false), false).1, crate::piece::wall_plan(
                        o.next_state(false),
                        false,
                    ).1.len() as int, i, j);
                },
                crate::piece::PieceKind::Star => {
                    lemma_moved_ok(o, crate::piece::star_plan(o.state as int).1, crate::piece::star_plan(
                        o.state as int,
                    ).1.len() as int, i, j);
                },
                crate::piece::PieceKind::WeirdLong => {
                    lemma_moved_ok(o, crate::piece::weird_plan(o.next_state(false), false).1, crate::piece::weird_plan(
                        o.next_state(false),
                        false,
                    ).1.len() as int, i, j);
                },
                _ => {
                    let rr = o.rot as int;
                    if 0 <= i < rr && 0 <= j < rr {
                        let a = rr - 1 - j;
                        if 0 <= a < 8 {
                            assert(o.sq(a, i) == o.cells[a][i]);
                        }
                    } else {
                        assert(o.sq(i, j) == o.cells[i][j]);
                    }
                },
            }
        } else {
            assert(q.cells[i][j] == o.cells[i][j]);
        }
    }
}

/// Stamping a piece into a board depends only on the board's contents.
proof fn lemma_stamped_same(p: Piece, mid: Board, a: Board, b: Board)
    requires
        a.same_but_grid(&b),
        a.grid() == b.grid(),
        p.stamped_into(&mid, &a),
    ensures
        p.stamped_into(&mid, &b),
{
    assert forall|x: int, y: int| #[trigger] mid.at(x, y) == p.stamp_at(&b, x, y) by {
        assert(mid.at(x, y) == p.stamp_at(&a, x, y));
        assert(a.at(x, y) == b.at(x, y));
    }
    assert forall|k: int| #[trigger] mid.is_fresh(Some(k)) <==> (b.is_fresh(Some(k)) || p.stamps_index_before(&b, k, 8, 0)) by {
        assert(mid.is_fresh(Some(k)) <==> (a.is_fresh(Some(k)) || p.stamps_index_before(&a, k, 8, 0)));
        assert(a.is_fresh(Some(k)) == b.is_fresh(Some(k)));
        if p.stamps_index_before(&a, k, 8, 0) {
            let (i, j) = choose|i: int, j: int|
                0 <= i < 8 && 0 <= j < 8 && (i < 8 || (i == 8 && j < 0)) && (#[trigger] p.cells[i][j]) is Some
                    && a.in_bounds(p.x + i, p.y + j) && k == (p.y + j) * a.width + (p.x + i);
            assert(p.stamps_index_before(&b, k, 8, 0));
        }
        if p.stamps_index_before(&b, k, 8, 0) {
            let (i, j) = choose|i: int, j: int|
                0 <= i < 8 && 0 <= j < 8 && (i < 8 || (i == 8 && j < 0)) && (#[trigger] p.cells[i][j]) is Some
                    && b.in_bounds(p.x + i, p.y + j) && k == (p.y + j) * b.width + (p.x + i);
            assert(p.stamps_index_before(&a, k, 8, 0));
        }
    }
}

/// The candidate columns, as the search visits them.
fn candidate_columns(w: i32) -> (cs: Vec<i32>)
    requires
        0 <= w <= i32::MAX - 16,
    ensures
        cs@ == candidates(w as int),
        forall|k: int| 0 <= k < cs@.len() ==> -7 <= #[trigger] cs@[k] <= w,
{
    let c: i64 = (w / 2) as i64;
    let wl = w as i64;
    let mut cs: Vec<i32> = Vec::new();
    cs.push((w / 2) as i32);
    let mut d: i64 = 1;
    loop
        invariant_except_break
            1 <= d <= c + wl + 8,
            cs@ + cands_from(c as int, wl as int, d as int) == candidates(w as int),
        invariant
            c == w / 2,
            wl == w,
            0 <= w <= i32::MAX - 16,
            forall|k: int| 0 <= k < cs@.len() ==> -7 <= #[trigger] cs@[k] <= w,
        ensures
            cs@ == candidates(w as int),
        decreases c + wl + 9 - d,
    {
        let lo = c - d;
        let hi = c + d;
        let lo_ok = lo >= -7 && lo < wl;
        let hi_ok = hi >= -7 && hi < wl;
        if !lo_ok && !hi_ok {
            assert(cands_from(c as int, wl as int, d as int) == Seq::<i32>::empty());
            assert(cs@ + Seq::<i32>::empty() =~= cs@);
            break;
        }
        let ghost before = cs@;
        if hi_ok {
            cs.push(hi as i32);
        }
        if lo_ok {
            cs.push(lo as i32);
        }
        proof {
            let right = if -7 <= c + d < wl { seq![(c + d) as i32] } else { seq![] };
            let left = if -7 <= c - d < wl { seq![(c - d) as i32] } else { seq![] };
            assert(cs@ =~= before + right + left);
            assert(before + cands_from(c as int, wl as int, d as int) =~= cs@ + cands_from(c as int, wl as int, d + 1));
        }
        d = d + 1;
        if c - d < -7 && c + d >= wl {
            assert(cands_from(c as int, wl as int, d as int) == Seq::<i32>::empty());
            assert(cs@ + Seq::<i32>::empty() =~= cs@);
            break;
        }
    }
    cs
}

/// The piece turned for orientation `o` on scratch board `s`.
fn turn_piece(piece: &Piece, s: &Board, o: i32) -> (p: Piece)
    requires
        s.wf(),
        piece.turnable(),
        boxes_ok(*piece),
        0 <= o,
    ensures
        p == turned(*piece, *s, o as int),
        p.turnable(),
        boxes_ok(p),
{
    let mut p = *piece;
    p.move_to(s, 10, 10);
    assert(p == (if piece.fits(s, 10, 10) { Piece { x: 10, y: 10, ..*piece } } else { *piece }));
    assert(boxes_ok(p));
    let ghost p0 = p;
    let mut t: i32 = 0;
    while t < o
        invariant_except_break
            turned_n(p, *s, (o - t) as int) == turned_n(p0, *s, o as int),
        invariant
            s.wf(),
            0 <= t <= o,
            p.turnable(),
            boxes_ok(p),
        ensures
            p == turned_n(p0, *s, o as int),
            p.turnable(),
            boxes_ok(p),
        decreases o - t,
    {
        let ghost before = p;
        let r = p.rotate(s, false);
        proof {
            lemma_turn_once(before, p, *s, r);
            lemma_turn_keeps_boxes(before, p, *s, r);
        }
        if !r {
            break;
        }
        t = t + 1;
    }
    p
}

/// Every hard-drop landing of `piece` on `board`, in the order the placement
/// search visits them (see the module description).
pub fn landings(board: &Board, piece: &Piece) -> (out: Vec<Landing>)
    requires
        board.wf(),
        board.width >= 1,
        (board.width + 20) * (board.height + 20) <= i32::MAX,
        board.tally_bounded(),
        piece.turnable(),
        boxes_ok(*piece),
    ensures
        exists|s: Board|
            scratch_ok(&s, board.width as int, board.height as int) && out@.map_values(|e: Landing| e.placement)
                == placements(*board, *piece, s, 0) && forall|k: int|
                0 <= k < out@.len() ==> landing_ok(#[trigger] out@[k], board, *piece, &s),
{
    let w = board.width;
    let h = board.height;
    assert(w + 20 <= i32::MAX / 20 && h + 20 <= i32::MAX / 20) by (nonlinear_arith)
        requires
            (w + 20) * (h + 20) <= i32::MAX,
            w >= 0,
            h >= 0,
    ;
    let cs = candidate_columns(w);
    let scratch = Board::new(w + 20, h + 20, true);
    proof {
        assert(scratch.active@ =~= Seq::new(34, |i: int| 0i32));
    }
    let ghost target = placements(*board, *piece, scratch, 0);
    let mut out: Vec<Landing> = Vec::new();
    let mut o: i32 = 0;
    while o < piece.orientations
        invariant
            board.wf(),
            w == board.width,
            h == board.height,
            h + 20 <= i32::MAX / 20,
            w >= 1,
            board.tally_bounded(),
                piece.turnable(),
            boxes_ok(*piece),
            scratch_ok(&scratch, w as int, h as int),
            cs@ == candidates(w as int),
            forall|k: int| 0 <= k < cs@.len() ==> -7 <= #[trigger] cs@[k] <= w,
            0 <= o <= piece.orientations,
            target == placements(*board, *piece, scratch, 0),
            out@.map_values(|e: Landing| e.placement) + placements(*board, *piece, scratch, o as int) == target,
            forall|k: int| 0 <= k < out@.len() ==> landing_ok(#[trigger] out@[k], board, *piece, &scratch),
        decreases piece.orientations - o,
    {
        let q = turn_piece(piece, &scratch, o);
        let ghost head = out@.map_values(|e: Landing| e.placement);
        let mut k: usize = 0;
        while k < cs.len()
            invariant
                board.wf(),
                w == board.width,
                h == board.height,
                h + 20 <= i32::MAX / 20,
                w >= 1,
                board.tally_bounded(),
                        q == turned(*piece, scratch, o as int),
                q.turnable(),
                boxes_ok(q),
                cs@ == candidates(w as int),
                forall|m: int| 0 <= m < cs@.len() ==> -7 <= #[trigger] cs@[m] <= w,
                0 <= k <= cs@.len(),
                0 <= o < piece.orientations,
                out@.map_values(|e: Landing| e.placement) == head + fitting(q, *board, cs@, o, k as int),
                forall|m: int| 0 <= m < out@.len() ==> landing_ok(#[trigger] out@[m], board, *piece, &scratch),
            decreases cs@.len() - k,
        {
            let cx = cs[k];
            let ghost before = out@;
            let mut p = q;
            if p.move_to(board, cx, 0) {
                let mut y: i32 = 0;
                while y < h + 9 && q.can_move_to(board, cx, y + 1)
                    invariant
                        board.wf(),
                        h == board.height,
                        h + 20 <= i32::MAX / 20,
                        w == board.width,
                        w <= i32::MAX - 16,
                        -7 <= cx <= w,
                        p == (Piece { x: cx, y: 0, ..q }),
                        q.turnable(),
                        q.fits(board, cx as int, y as int),
                        0 <= y <= h + 9,
                        drop_from(q, *board, cx as int, y as int) == drop_from(q, *board, cx as int, 0),
                    decreases h + 9 - y,
                {
                    y = y + 1;
                }
                assert(drop_from(q, *board, cx as int, y as int) == y);
                proof {
                    assert forall|i: int, j: int| 0 <= i < 8 && 0 <= j < 8 implies #[trigger] p.sq(i, j) == q.sq(i, j) by {}
                    assert(p.fits(board, cx as int, y as int));
                }
                let moved = p.move_to(board, cx, y);
                assert(moved);
                let mut b = board.duplicate();
                let ghost dup = b;
                p.land(&mut b);
                let ghost locked = b;
                proof {
                    let mid = choose|mid: Board|
                        #[trigger] p.stamped_into(&mid, &dup) && locked.grid() == mid.grid() && locked.idiot == (mid.idiot
                            || mid.bad_move_at(p.x as int, p.y as int)) && locked.reason == if mid.bad_move_at(
                            p.x as int,
                            p.y as int,
                        ) {
                            BT_BAD_MOVE
                        } else {
                            mid.reason
                        };
                    lemma_stamped_same(p, mid, dup, *board);
                    assert(locked_in(p, board, &locked));
                    assert forall|x: int, y2: int|
                        #![trigger locked.at(x, y2)]
                        (locked.at(x, y2) matches Some(c) ==> 0 <= c.value() <= 255) by {
                        assert(locked.at(x, y2) == mid.at(x, y2));
                        assert(mid.at(x, y2) == p.stamp_at(board, x, y2));
                        let i = x - p.x;
                        let j = y2 - p.y;
                        if 0 <= i < 8 && 0 <= j < 8 && p.cells[i][j] is Some && board.in_bounds(x, y2) {
                            assert(p.cells[i][j] == q.cells[i][j]);
                        }
                    }
                }
                let lines = count_lines(&b);
                proof {
                    lemma_tally_bounded(b);
                }
                let r = b.check_lines();
                let e = Landing { placement: Placement { x: cx, orientation: o }, piece: p, board: b, lines };
                proof {
                    assert(locked_in(e.piece, board, &locked) && e.lines == full_rows(&locked, board.height as int)
                        && e.board.lines_cleared(&locked, r));
                    assert(e.placement.x as int == cx as int);
                    assert(e.placement.orientation as int == o as int);
                    assert(turned(*piece, scratch, e.placement.orientation as int) == q);
                    assert(drop_from(q, *board, cx as int, 0) == y as int);
                    assert(e.piece == Piece { x: cx, y: y, ..q });
                    assert(e.board.wf() && e.board.width == board.width && e.board.height == board.height);
                    assert(landing_ok(e, board, *piece, &scratch));
                }
                out.push(e);
                proof {
                    assert(out@.map_values(|e: Landing| e.placement) =~= before.map_values(|e: Landing| e.placement).push(
                        Placement { x: cx, orientation: o },
                    ));
                    assert forall|m: int| 0 <= m < out@.len() implies landing_ok(#[trigger] out@[m], board, *piece, &scratch) by {
                        if m < before.len() {
                            assert(out@[m] == before[m]);
                        }
                    }
                }
            } else {
                assert(!q.fits(board, cx as int, 0));
            }
            k = k + 1;
        }
        o = o + 1;
    }
    out
}

} // verus!
