//! What crosses between two players' games: a board grid as wire words (four
//! per square, row-major, an empty square being four zeros) and an arsenal as
//! ten `[weapon index, quantity]` pairs (an empty slot being `[-1, 0]`). Swap
//! ships a board, Lazy Susan an arsenal, a spy a board to display.

use vstd::prelude::*;
use crate::arsenal::Arsenal;
use crate::board::{Board, lemma_index, lemma_index_inj};
use crate::piece::Piece;
use crate::cell::{Cell, decode_spec, encode_spec, lemma_decode_encode};
use crate::policy::token_of;
use crate::weapons::{WeaponToken, token_at, token_index, lemma_token_at_index};

verus! {

/// The four wire words of a square.
pub open spec fn square_quad(c: Option<Cell>) -> Seq<i32> {
    match c {
        Some(c) => encode_spec(c),
        None => seq![0i32, 0i32, 0i32, 0i32],
    }
}

/// The wire words of a grid: each square's four words, in grid order.
pub open spec fn grid_words(g: Seq<Option<Cell>>) -> Seq<i32>
    decreases g.len(),
{
    if g.len() == 0 {
        Seq::empty()
    } else {
        grid_words(g.drop_last()) + square_quad(g.last())
    }
}

/// The grid a run of wire words denotes: one square per four words.
pub open spec fn words_grid(d: Seq<i32>, n: int) -> Seq<Option<Cell>> {
    Seq::new(n as nat, |k: int| decode_spec(d.subrange(4 * k, 4 * k + 4)))
}

/// Every box that the words of an `n`-square grid denote is worth 0 to 255.
pub open spec fn words_values_ok(d: Seq<i32>, n: int) -> bool {
    forall|k: int| 0 <= k < n ==> ((#[trigger] decode_spec(d.subrange(4 * k, 4 * k + 4))) matches Some(c) ==> 0 <= c.value() <= 255)
}

/// Whether every box that `data` denotes for an `n`-square grid is worth 0 to
/// 255.
pub fn words_in_range(data: &[i32], n: usize) -> (ok: bool)
    requires
        data@.len() == 4 * n,
    ensures
        ok == words_values_ok(data@, n as int),
{
    let len = data.len();
    let mut k: usize = 0;
    while k < n
        invariant
            data@.len() == 4 * n,
            len == data@.len(),
            0 <= k <= n,
            forall|j: int| 0 <= j < k ==> ((#[trigger] decode_spec(data@.subrange(4 * j, 4 * j + 4))) matches Some(c) ==> 0 <= c.value() <= 255),
        decreases n - k,
    {
        let q: [i32; 4] = [data[4 * k], data[4 * k + 1], data[4 * k + 2], data[4 * k + 3]];
        assert(q@ =~= data@.subrange(4 * k as int, 4 * k + 4));
        if let Some(c) = Cell::decode(q) {
            let v = c.value();
            if v < 0 || v > 255 {
                return false;
            }
        }
        k = k + 1;
    }
    true
}

/// A board imported from words whose boxes are worth 0 to 255 has only such
/// boxes.
pub proof fn lemma_import_values(b: Board, d: Seq<i32>)
    requires
        b.wf(),
        b.grid() == words_grid(d, b.grid().len() as int),
        words_values_ok(d, b.grid().len() as int),
    ensures
        b.values_ok(),
{
    assert forall|x: int, y: int| ((#[trigger] b.at(x, y)) matches Some(c) ==> 0 <= c.value() <= 255) by {
        if b.in_bounds(x, y) {
            lemma_index(b.width as int, b.height as int, x, y);
            let k = y * b.width + x;
            assert(b.at(x, y) == decode_spec(d.subrange(4 * k, 4 * k + 4)));
        }
    }
}

proof fn lemma_square_quad_len(c: Option<Cell>)
    ensures
        square_quad(c).len() == 4,
{
}

pub proof fn lemma_grid_words(g: Seq<Option<Cell>>)
    ensures
        grid_words(g).len() == 4 * g.len(),
        forall|k: int| 0 <= k < g.len() ==> #[trigger] grid_words(g).subrange(4 * k, 4 * k + 4) == square_quad(g[k]),
    decreases g.len(),
{
    if g.len() > 0 {
        let h = g.drop_last();
        lemma_grid_words(h);
        lemma_square_quad_len(g.last());
        assert forall|k: int| 0 <= k < g.len() implies #[trigger] grid_words(g).subrange(4 * k, 4 * k + 4)
            == square_quad(g[k]) by {
            if k < h.len() {
                assert(grid_words(h).subrange(4 * k, 4 * k + 4) == square_quad(h[k]));
                assert(grid_words(g).subrange(4 * k, 4 * k + 4) =~= grid_words(h).subrange(4 * k, 4 * k + 4));
            } else {
                assert(grid_words(g).subrange(4 * k, 4 * k + 4) =~= square_quad(g.last()));
            }
        }
    }
}

/// A board's grid as wire words.
pub fn export_board(board: &Board) -> (out: Vec<i32>)
    requires
        board.wf(),
    ensures
        out@ == grid_words(board.grid()),
{
    let n = board.cells.len();
    let mut out: Vec<i32> = Vec::new();
    let mut k: usize = 0;
    while k < n
        invariant
            n == board.grid().len(),
            0 <= k <= n,
            out@ == grid_words(board.grid().take(k as int)),
        decreases n - k,
    {
        let q: [i32; 4] = match board.cells[k] {
            Some(c) => c.encode(),
            None => [0i32; 4],
        };
        out.push(q[0]);
        out.push(q[1]);
        out.push(q[2]);
        out.push(q[3]);
        proof {
            let g = board.grid();
            assert(g.take(k + 1).drop_last() =~= g.take(k as int));
            assert(q@ =~= square_quad(g[k as int]));
            assert(out@ =~= grid_words(g.take(k as int)) + square_quad(g[k as int]));
        }
        k = k + 1;
    }
    proof {
        assert(board.grid().take(n as int) =~= board.grid());
    }
    out
}

/// Replace the board's grid from wire words; everything else about the board
/// stays. Words of the wrong length (not four per square) are ignored.
pub fn import_board(board: &mut Board, data: &[i32])
    requires
        old(board).wf(),
    ensures
        final(board).wf(),
        final(board).same_but_grid(old(board)),
        data@.len() == 4 * old(board).grid().len() ==> final(board).grid() == words_grid(data@, old(board).grid().len() as int),
        data@.len() != 4 * old(board).grid().len() ==> final(board).grid() == old(board).grid(),
{
    let n = board.cells.len();
    if data.len() % 4 != 0 || data.len() / 4 != n {
        return;
    }
    let ghost b0 = *board;
    let len = data.len();
    let mut k: usize = 0;
    while k < n
        invariant
            len == data@.len(),
            board.wf(),
            board.same_but_grid(&b0),
            n == board.grid().len(),
            data@.len() == 4 * n,
            0 <= k <= n,
            forall|j: int| 0 <= j < k ==> #[trigger] board.grid()[j] == decode_spec(data@.subrange(4 * j, 4 * j + 4)),
        decreases n - k,
    {
        let q: [i32; 4] = [data[4 * k], data[4 * k + 1], data[4 * k + 2], data[4 * k + 3]];
        let c = Cell::decode(q);
        proof {
            assert(q@ =~= data@.subrange(4 * k, 4 * k + 4));
        }
        board.cells.set(k, c);
        k = k + 1;
    }
    proof {
        assert(board.grid() =~= words_grid(data@, n as int));
    }
}

proof fn lemma_decode_square(c: Option<Cell>)
    ensures
        decode_spec(square_quad(c)) == c,
{
    match c {
        Some(c) => lemma_decode_encode(c),
        None => {},
    }
}

/// Importing a board's own export gives its grid back.
pub proof fn lemma_board_round_trip(g: Seq<Option<Cell>>)
    ensures
        words_grid(grid_words(g), g.len() as int) == g,
{
    lemma_grid_words(g);
    let r = words_grid(grid_words(g), g.len() as int);
    assert forall|k: int| 0 <= k < g.len() implies #[trigger] r[k] == g[k] by {
        assert(grid_words(g).subrange(4 * k, 4 * k + 4) == square_quad(g[k]));
        lemma_decode_square(g[k]);
    }
    assert(r =~= g);
}

/// The wire word naming a slot's weapon: its index, or -1 for none.
pub open spec fn slot_word(t: Option<WeaponToken>) -> i32 {
    match t {
        Some(t) => token_index(t) as i32,
        None => -1i32,
    }
}

/// An arsenal's wire words: per slot, the weapon word then the quantity.
pub open spec fn arsenal_words(tokens: Seq<Option<WeaponToken>>, qty: Seq<u16>) -> Seq<i32> {
    Seq::new(20, |k: int| if k % 2 == 0 { slot_word(tokens[k / 2]) } else { qty[k / 2] as i32 })
}

/// The quantity a wire word asks for, clamped into `0..=u16::MAX`.
pub open spec fn clamp_qty(v: i32) -> u16 {
    if v < 0 {
        0
    } else if v > u16::MAX {
        u16::MAX
    } else {
        v as u16
    }
}

/// The slot a pair of wire words sets up: a known weapon with a nonzero
/// quantity, or an empty slot.
pub open spec fn slot_of(w: i32, q: i32) -> (Option<WeaponToken>, u16) {
    if token_of(w) is None || clamp_qty(q) == 0 {
        (None, 0u16)
    } else {
        (token_of(w), clamp_qty(q))
    }
}

/// An arsenal's slots as wire words.
pub fn export_arsenal(arsenal: &Arsenal) -> (out: Vec<i32>)
    ensures
        out@ == arsenal_words(arsenal.tokens(), arsenal.quantities()),
{
    proof {
        arsenal.lemma_len();
    }
    let mut out: Vec<i32> = Vec::new();
    let mut i: usize = 0;
    while i < 10
        invariant
            0 <= i <= 10,
            arsenal.tokens().len() == 10,
            arsenal.quantities().len() == 10,
            out@.len() == 2 * i,
            forall|k: int| 0 <= k < 2 * i ==> #[trigger] out@[k] == arsenal_words(arsenal.tokens(), arsenal.quantities())[k],
        decreases 10 - i,
    {
        let w: i32 = match arsenal.token(i) {
            Some(t) => t.index() as i32,
            None => -1,
        };
        out.push(w);
        out.push(arsenal.quantity(i) as i32);
        i = i + 1;
    }
    proof {
        assert(out@ =~= arsenal_words(arsenal.tokens(), arsenal.quantities()));
    }
    out
}

/// Rebuild the arsenal from wire words, slot by slot, keeping the layout.
/// Quantities are clamped into range; an unknown weapon or a zero quantity
/// leaves the slot empty. Words of the wrong length (not twenty) are ignored.
pub fn import_arsenal(arsenal: &mut Arsenal, data: &[i32])
    ensures
        data@.len() == 20 ==> final(arsenal).wf(),
        data@.len() == 20 ==> forall|s: int|
            0 <= s < 10 ==> (#[trigger] final(arsenal).tokens()[s], final(arsenal).quantities()[s]) == slot_of(
                data@[2 * s],
                data@[2 * s + 1],
            ),
        data@.len() != 20 ==> *final(arsenal) == *old(arsenal),
{
    if data.len() != 20 {
        return;
    }
    let mut a = Arsenal::new();
    let mut slot: usize = 0;
    while slot < 10
        invariant
            0 <= slot <= 10,
            data@.len() == 20,
            a.wf(),
            forall|s: int| 0 <= s < slot ==> (#[trigger] a.tokens()[s], a.quantities()[s]) == slot_of(data@[2 * s], data@[2 * s + 1]),
            forall|s: int| slot <= s < 10 ==> #[trigger] a.tokens()[s] is None,
        decreases 10 - slot,
    {
        let w = data[slot * 2];
        let token = if w < 0 { None } else { WeaponToken::from_index(w) };
        let raw = data[slot * 2 + 1];
        let qty: u16 = if raw < 0 {
            0
        } else if raw > 65535 {
            65535
        } else {
            raw as u16
        };
        a.set_slot(slot, token, qty);
        slot = slot + 1;
    }
    *arsenal = a;
}

/// Importing an arsenal's own export gives the same slots back.
pub proof fn lemma_arsenal_round_trip(tokens: Seq<Option<WeaponToken>>, qty: Seq<u16>)
    requires
        tokens.len() == 10,
        qty.len() == 10,
        forall|i: int| 0 <= i < 10 ==> (#[trigger] tokens[i] is None <==> qty[i] == 0),
    ensures
        forall|s: int|
            0 <= s < 10 ==> slot_of(
                #[trigger] arsenal_words(tokens, qty)[2 * s],
                arsenal_words(tokens, qty)[2 * s + 1],
            ) == (tokens[s], qty[s]),
{
    assert forall|s: int| 0 <= s < 10 implies slot_of(
        #[trigger] arsenal_words(tokens, qty)[2 * s],
        arsenal_words(tokens, qty)[2 * s + 1],
    ) == (tokens[s], qty[s]) by {
        let d = arsenal_words(tokens, qty);
        assert((2 * s) % 2 == 0 && (2 * s) / 2 == s);
        assert((2 * s + 1) % 2 == 1 && (2 * s + 1) / 2 == s);
        match tokens[s] {
            Some(t) => {
                lemma_token_at_index(t);
            },
            None => {},
        }
    }
}

/// The render id of a square: its box's id, or -2 for an empty square.
pub open spec fn square_id(c: Option<Cell>) -> i32 {
    match c {
        Some(c) => c.id(),
        None => -2i32,
    }
}

/// The falling piece, if any, as a value.
pub open spec fn piece_of(p: Option<&Piece>) -> Option<Piece> {
    match p {
        Some(p) => Some(*p),
        None => None,
    }
}

/// What is seen at board square `(x, y)`: the falling piece's box there,
/// else the board's own square.
pub open spec fn shown_at(b: &Board, p: Option<Piece>, x: int, y: int) -> i32 {
    match p {
        Some(p) => match p.sq(x - p.x, y - p.y) {
            Some(c) => c.id(),
            None => square_id(b.at(x, y)),
        },
        None => square_id(b.at(x, y)),
    }
}

/// Entry `(x, y)` of a row-major grid `w` wide.
pub open spec fn grid_at(g: Seq<i32>, w: int, x: int, y: int) -> i32 {
    g[y * w + x]
}

/// The grid squares of the piece's local grid already drawn: the columns
/// before `i`, and in column `i` the rows before `j`.
pub open spec fn drawn(i: int, j: int, a: int, b: int) -> bool {
    0 <= a < 8 && 0 <= b < 8 && (a < i || (a == i && b < j))
}

/// The board as the player sees it, row-major: each square's render id (-2
/// for empty), with the falling piece's boxes drawn over it.
pub fn render_ids(board: &Board, piece: Option<&Piece>) -> (out: Vec<i32>)
    requires
        board.wf(),
        piece matches Some(p) ==> p.x <= i32::MAX - 8 && p.y <= i32::MAX - 8,
    ensures
        out@.len() == board.width * board.height,
        forall|x: int, y: int|
            0 <= x < board.width && 0 <= y < board.height ==> #[trigger] grid_at(out@, board.width as int, x, y)
                == shown_at(board, piece_of(piece), x, y),
{
    let w = board.width;
    let h = board.height;
    let n = board.cells.len();
    let mut out: Vec<i32> = Vec::new();
    let mut k: usize = 0;
    while k < n
        invariant
            n == board.grid().len(),
            0 <= k <= n,
            out@.len() == k,
            forall|m: int| 0 <= m < k ==> #[trigger] out@[m] == square_id(board.grid()[m]),
        decreases n - k,
    {
        let id = match board.cells[k] {
            Some(c) => c.id(),
            None => -2,
        };
        out.push(id);
        k = k + 1;
    }
    assert forall|x: int, y: int| 0 <= x < w && 0 <= y < h implies #[trigger] grid_at(out@, w as int, x, y) == square_id(
        board.at(x, y),
    ) by {
        lemma_index(w as int, h as int, x, y);
    }
    match piece {
        None => {},
        Some(p) => {
            let mut i: usize = 0;
            while i < 8
                invariant
                    board.wf(),
                    w == board.width,
                    h == board.height,
                    p.x <= i32::MAX - 8,
                    p.y <= i32::MAX - 8,
                    out@.len() == w * h,
                    0 <= i <= 8,
                    forall|x: int, y: int|
                        0 <= x < w && 0 <= y < h ==> #[trigger] grid_at(out@, w as int, x, y) == if drawn(
                            i as int,
                            0,
                            x - p.x,
                            y - p.y,
                        ) && p.sq(x - p.x, y - p.y) is Some {
                            p.sq(x - p.x, y - p.y).unwrap().id()
                        } else {
                            square_id(board.at(x, y))
                        },
                decreases 8 - i,
            {
                let mut j: usize = 0;
                while j < 8
                    invariant
                        board.wf(),
                        w == board.width,
                        h == board.height,
                        p.x <= i32::MAX - 8,
                        p.y <= i32::MAX - 8,
                        out@.len() == w * h,
                        0 <= i < 8,
                        0 <= j <= 8,
                        forall|x: int, y: int|
                            0 <= x < w && 0 <= y < h ==> #[trigger] grid_at(out@, w as int, x, y) == if drawn(
                                i as int,
                                j as int,
                                x - p.x,
                                y - p.y,
                            ) && p.sq(x - p.x, y - p.y) is Some {
                                p.sq(x - p.x, y - p.y).unwrap().id()
                            } else {
                                square_id(board.at(x, y))
                            },
                    decreases 8 - j,
                {
                    let ghost before = out@;
                    if let Some(c) = p.cells[i][j] {
                        let gx = p.x + i as i32;
                        let gy = p.y + j as i32;
                        if gx >= 0 && gx < w && gy >= 0 && gy < h {
                            proof {
                                lemma_index(w as int, h as int, gx as int, gy as int);
                            }
                            out.set((gy * w + gx) as usize, c.id());
                            assert forall|x: int, y: int| 0 <= x < w && 0 <= y < h implies #[trigger] grid_at(
                                out@,
                                w as int,
                                x,
                                y,
                            ) == if drawn(i as int, j + 1, x - p.x, y - p.y) && p.sq(x - p.x, y - p.y) is Some {
                                p.sq(x - p.x, y - p.y).unwrap().id()
                            } else {
                                square_id(board.at(x, y))
                            } by {
                                assert(grid_at(before, w as int, x, y) == before[y * w + x]);
                                lemma_index(w as int, h as int, x, y);
                                if x == gx && y == gy {
                                } else {
                                    if y * w + x == gy * w + gx {
                                        lemma_index_inj(w as int, x, y, gx as int, gy as int);
                                    }
                                }
                            }
                        } else {
                            assert forall|x: int, y: int| 0 <= x < w && 0 <= y < h implies #[trigger] grid_at(
                                out@,
                                w as int,
                                x,
                                y,
                            ) == if drawn(i as int, j + 1, x - p.x, y - p.y) && p.sq(x - p.x, y - p.y) is Some {
                                p.sq(x - p.x, y - p.y).unwrap().id()
                            } else {
                                square_id(board.at(x, y))
                            } by {
                                assert(grid_at(before, w as int, x, y) == grid_at(out@, w as int, x, y));
                            }
                        }
                    }
                    j = j + 1;
                }
                i = i + 1;
            }
        },
    }
    out
}

} // verus!
