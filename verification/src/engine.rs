//! A single player's game engine: spawn, fall, slide, lock, clear, score,
//! weapons, bazaar and death, driven by an explicit virtual clock.
//!
//! The engine leaves two things to its host, both of which are floating-point
//! in this game: choosing each new piece (the host's piece supply hands it to
//! [`Engine::spawn`], and follows the weapon changes the engine lists in
//! `deck`), and Mondale's tax on the funds of a lock (the host hands the funds
//! kept to [`Engine::bank`]). A slide that expires is reported by
//! [`Engine::tick`]; the host then calls [`Engine::place`], and after a lock
//! [`Engine::bank`] and [`Engine::spawn`].

use vstd::prelude::*;
use crate::arsenal::Arsenal;
use crate::bazaar::{bazaar_buy, bazaar_sell, can_buy, fire_slot, stocked};
use crate::policy::{cost, price_of};
use crate::board::{lemma_effect_keeps_values, lemma_revert_keeps_values, lemma_tally_bounded, lemma_upbyside_undone, Board, LineClear};
use crate::exchange::{
    arsenal_words, export_arsenal, export_board, grid_words, import_arsenal, import_board, lemma_arsenal_round_trip,
    lemma_board_round_trip, lemma_import_values, slot_of,
    words_grid, words_in_range, words_values_ok,
};
use crate::game::{bazaar_countdown, count_down, counted_down, expiring, til_bazaar};
use crate::constants::{
    BT_BOARD_HGT, BT_BOARD_WTH, BT_DEFAULT_X, BT_DEFAULT_Y, BT_DROP_TIME, BT_FAST_DROP_TIME, BT_LINES_TIL_BAZ,
    BT_SLIDE_TIME,
};
use crate::game::GameEvent;
use crate::keyframe::{well_formed, Keyframe, Score};
use crate::landing::{boxes_ok, lemma_turn_keeps_boxes, lemma_turn_once, locked_in, turn_once};
use crate::cell::decode_spec;
use crate::piece::Piece;
use crate::rng::{draw, lcg_next, seed_state, Rng};
use crate::weapons::{duration_spec, lemma_token_at_index, token_at, token_index, weapon_duration, ActiveFlags, WeaponToken};

verus! {

/// Which timer drives the falling piece.
#[derive(Clone, Copy, Debug, PartialEq, Eq, Structural)]
pub enum Phase {
    /// The drop timer moves the piece down.
    Falling,
    /// The piece rests; the slide timer decides when it locks.
    Sliding,
    /// The player topped out.
    Over,
}

/// Positions a piece may take: within 64 squares of the board's corner.
pub open spec fn near(x: int, y: int) -> bool {
    -64 <= x <= 64 && -64 <= y <= 64
}

fn near_exec(x: i32, y: i32) -> (b: bool)
    ensures
        b == near(x as int, y as int),
{
    -64 <= x && x <= 64 && -64 <= y && y <= 64
}

/// A single player's game.
#[derive(Clone, Debug)]
pub struct Engine {
    pub board: Board,
    pub rng: Rng,
    pub score: Score,
    /// The falling piece; none before the first spawn and after a top-out.
    pub current: Option<Piece>,
    /// The falling piece's position.
    pub x: i32,
    pub y: i32,
    /// Spawn position, fall direction and the steps of a left and a right move
    /// (flipped by Upbyside).
    pub def_x: i32,
    pub def_y: i32,
    pub delta_y: i32,
    pub left_x: i32,
    pub right_x: i32,
    /// Drop intervals in milliseconds: normal, fast, the one in use; the slide
    /// interval.
    pub base_drop_time: i32,
    pub fast_drop_time: i32,
    pub drop_time: i32,
    pub slide_time: i32,
    /// Fast drop engaged.
    pub dropping: bool,
    /// Slide counter: 1 when the slide starts, raised by each move during it.
    pub sliding: i32,
    pub phase: Phase,
    pub drop_accum: i32,
    pub slide_accum: i32,
    pub paused: bool,
    /// Weapons in effect on this player and their remaining durations in lines.
    pub weapons: ActiveFlags,
    pub remaining: [i32; 34],
    pub arsenal: Arsenal,
    /// Weapons received from the opponent, applied at the next lock.
    pub pending: Vec<WeaponToken>,
    /// A board exchanged by Swap, installed at the next lock.
    pub incoming_board: Option<Vec<i32>>,
    /// Mad Hatter and Slick Willy timers, and Slick Willy's direction.
    pub hatter_accum: i32,
    pub slick_accum: i32,
    pub slick_dir: i32,
    pub in_bazaar: bool,
    /// Lines left until the next bazaar.
    pub lines_til_baz: i32,
    /// Events for the host, oldest first.
    pub events: Vec<GameEvent>,
    /// Weapons switched on (true) and off (false), oldest first, that the
    /// host's piece supply must follow.
    pub deck: Vec<(WeaponToken, bool)>,
}

impl Engine {
    /// The engine's invariant: a standard board whose boxes are worth 0 to
    /// 255 (the game's own boxes are worth 0, 1 to 6 or 150; the bound keeps
    /// the tally of every line check within `i32`, see
    /// [`crate::board::lemma_tally_bounded`]), a well-formed arsenal, a spawn
    /// point and move steps as the game sets them, and a falling piece that can
    /// turn, sits where the engine says and carries boxes worth 0 to 255.
    pub open spec fn wf(&self) -> bool {
        &&& self.board.wf()
        &&& self.board.width == BT_BOARD_WTH
        &&& self.board.height == BT_BOARD_HGT
        &&& self.board.values_ok()
        &&& self.arsenal.wf()
        &&& near(self.x as int, self.y as int)
        &&& self.current matches Some(p) ==> p.turnable() && boxes_ok(p) && p.x == self.x && p.y == self.y
        &&& self.def_x == BT_DEFAULT_X
        &&& (self.def_y == BT_DEFAULT_Y || self.def_y == BT_BOARD_HGT - 4)
        &&& (self.delta_y == 1 || self.delta_y == -1)
        &&& (self.left_x == 1 || self.left_x == -1)
        &&& (self.right_x == 1 || self.right_x == -1)
        &&& forall|i: int| 0 <= i < 34 ==> #[trigger] self.remaining@[i] >= 0
        &&& self.incoming_board matches Some(w) ==> (w@.len() == 4 * (BT_BOARD_WTH * BT_BOARD_HGT) ==> words_values_ok(
            w@,
            BT_BOARD_WTH * BT_BOARD_HGT,
        ))
    }

    /// Whether weapon `t` is in effect.
    pub open spec fn on(&self, t: WeaponToken) -> bool {
        self.weapons@[token_index(t)] != 0
    }
}

/// The engine after the slide timer starts: No Slide makes it zero.
pub open spec fn slid(e: Engine) -> Engine {
    Engine {
        sliding: 1,
        slide_time: if e.on(WeaponToken::NoSlide) { 0 } else { BT_SLIDE_TIME },
        phase: Phase::Sliding,
        slide_accum: 0,
        ..e
    }
}

/// The engine after one drop step: the piece moves one row in the fall
/// direction if it fits there, else the slide starts.
pub open spec fn dropped(e: Engine) -> Engine {
    match e.current {
        None => e,
        Some(p) => {
            let ny = e.y + e.delta_y;
            if near(e.x as int, ny) && p.fits(&e.board, e.x as int, ny) {
                Engine { y: ny as i32, current: Some(Piece { x: e.x, y: ny as i32, ..p }), ..e }
            } else {
                slid(e)
            }
        },
    }
}

/// The drop timer at work: while falling with at least a step on the clock,
/// take the step off and drop.
pub open spec fn fallen(e: Engine, step: int) -> Engine
    decreases e.drop_accum,
    when step >= 1
{
    if e.phase == Phase::Falling && e.drop_accum >= step {
        let e1 = Engine { drop_accum: (e.drop_accum - step) as i32, ..e };
        fallen(dropped(e1), step)
    } else {
        e
    }
}

/// The falling piece after one clockwise turn attempt.
pub open spec fn turned_current(e: Engine) -> Engine {
    match e.current {
        None => e,
        Some(p) => Engine { current: Some(turn_once(p, e.board).0), ..e },
    }
}

/// Mad Hatter at work: one turn per 20 ms on its timer.
pub open spec fn hatted(e: Engine) -> Engine
    decreases e.hatter_accum,
{
    if e.hatter_accum >= 20 {
        let e1 = Engine { hatter_accum: (e.hatter_accum - 20) as i32, ..e };
        hatted(turned_current(e1))
    } else {
        e
    }
}

/// One Slick Willy step: the piece moves one square its way, or turns back.
pub open spec fn slicked_once(e: Engine) -> Engine {
    match e.current {
        None => e,
        Some(p) => {
            let dir = if e.slick_dir == 0 { e.left_x } else { e.right_x };
            let nx = e.x + dir;
            if near(nx, e.y as int) && p.fits(&e.board, nx, e.y as int) {
                Engine { x: nx as i32, current: Some(Piece { x: nx as i32, y: e.y, ..p }), ..e }
            } else {
                Engine { slick_dir: e.slick_dir ^ 1, ..e }
            }
        },
    }
}

/// A Slick Willy step on a falling piece either moves it one column its way
/// (left while the slide direction is 0, right otherwise), when the piece
/// fits there, keeping the direction; or, when it does not fit, leaves the
/// piece where it is and flips the direction, so that a direction of 0 or 1
/// becomes the other one and the next step tries the other side. Either way
/// the step changes the position or the direction, and nothing else.
pub proof fn lemma_slick_moves_or_turns_back(e: Engine)
    requires
        e.wf(),
        e.current is Some,
    ensures
        ({
            let e1 = slicked_once(e);
            let p = e.current->Some_0;
            let nx = e.x + if e.slick_dir == 0 { e.left_x } else { e.right_x };
            let free = near(nx, e.y as int) && p.fits(&e.board, nx, e.y as int);
            &&& e1.x != e.x || e1.slick_dir != e.slick_dir
            &&& free ==> e1 == Engine { x: nx as i32, current: Some(Piece { x: nx as i32, ..p }), ..e }
            &&& !free ==> e1 == Engine { slick_dir: e1.slick_dir, ..e } && e1.slick_dir != e.slick_dir
            &&& !free && e.slick_dir == 0 ==> e1.slick_dir == 1
            &&& !free && e.slick_dir == 1 ==> e1.slick_dir == 0
        }),
{
    let d = e.slick_dir;
    assert(d ^ 1 != d) by (bit_vector);
    assert(d == 0 ==> d ^ 1 == 1) by (bit_vector);
    assert(d == 1 ==> d ^ 1 == 0) by (bit_vector);
    let p = e.current->Some_0;
    assert(p.y == e.y);
}

/// Slick Willy at work: one step per 20 ms on its timer.
pub open spec fn slicked(e: Engine) -> Engine
    decreases e.slick_accum,
{
    if e.slick_accum >= 20 {
        let e1 = Engine { slick_accum: (e.slick_accum - 20) as i32, ..e };
        slicked(slicked_once(e1))
    } else {
        e
    }
}

/// The weapon timers after `dt` ms: Mad Hatter while in effect; Slick Willy
/// while in effect, falling and not fast-dropping.
pub open spec fn weapons_ticked(e: Engine, dt: int) -> Engine {
    let h = if e.on(WeaponToken::Hatter) {
        hatted(Engine { hatter_accum: (e.hatter_accum + dt) as i32, ..e })
    } else {
        e
    };
    if h.on(WeaponToken::Slick) && h.phase == Phase::Falling && !h.dropping {
        slicked(Engine { slick_accum: (h.slick_accum + dt) as i32, ..h })
    } else {
        h
    }
}

/// Whether the engine's clock runs: not paused, not in the bazaar, not over,
/// and a positive time step.
pub open spec fn clock_runs(e: Engine, dt: int) -> bool {
    !e.paused && !e.in_bazaar && e.phase != Phase::Over && dt > 0
}

/// The timers `dt` ms on can be counted in `i32`.
pub open spec fn tick_fits(e: Engine, dt: int) -> bool {
    clock_runs(e, dt) ==> {
        &&& e.on(WeaponToken::Hatter) ==> e.hatter_accum + dt <= i32::MAX
        &&& e.on(WeaponToken::Slick) && e.phase == Phase::Falling && !e.dropping ==> e.slick_accum + dt <= i32::MAX
        &&& e.phase == Phase::Falling ==> e.drop_accum + dt <= i32::MAX
        &&& e.phase == Phase::Sliding ==> e.slide_accum + dt <= i32::MAX
    }
}

/// The engine `dt` ms on, and whether the slide ran out (the piece is then
/// due to be placed): the weapon timers run, then the drop timer drops the
/// piece step by step (an interval below 1 counts as 1), or the slide timer
/// takes a slide interval off (a zero interval runs out at once).
pub open spec fn ticked(e: Engine, dt: int) -> (Engine, bool) {
    if !clock_runs(e, dt) {
        (e, false)
    } else {
        let w = weapons_ticked(e, dt);
        match w.phase {
            Phase::Falling => {
                let step = if w.drop_time >= 1 { w.drop_time as int } else { 1 };
                (fallen(Engine { drop_accum: (w.drop_accum + dt) as i32, ..w }, step), false)
            },
            Phase::Sliding => {
                let a = w.slide_accum + dt;
                let step = if w.slide_time >= 0 { w.slide_time as int } else { 0 };
                if step > 0 && a < step {
                    (Engine { slide_accum: a as i32, ..w }, false)
                } else {
                    (Engine { slide_accum: (if step > 0 { a - step } else { a }) as i32, ..w }, true)
                }
            },
            Phase::Over => (w, false),
        }
    }
}

/// The engine after spawning piece `p`: it enters at the spawn point, shifted
/// left by half its turning square, and falls at the normal pace; where it
/// does not fit the player tops out.
pub open spec fn spawned(e: Engine, p: Piece) -> Engine {
    let x = e.def_x - (p.rot as int) / 2;
    if p.fits(&e.board, x, e.def_y as int) {
        Engine {
            x: x as i32,
            y: e.def_y,
            current: Some(Piece { x: x as i32, y: e.def_y, ..p }),
            dropping: false,
            drop_time: e.base_drop_time,
            phase: Phase::Falling,
            drop_accum: 0,
            ..e
        }
    } else {
        Engine { x: x as i32, y: e.def_y, current: None, phase: Phase::Over, events: e.events, ..e }
    }
}

/// The engine after a sideways move by `dx`: the piece moves if it fits
/// there, and a move during the slide raises the slide counter.
pub open spec fn shifted(e: Engine, dx: int) -> Engine {
    match e.current {
        None => e,
        Some(p) => {
            let nx = e.x + dx;
            if near(nx, e.y as int) && p.fits(&e.board, nx, e.y as int) {
                Engine {
                    x: nx as i32,
                    current: Some(Piece { x: nx as i32, y: e.y, ..p }),
                    sliding: if e.sliding != 0 { (e.sliding + 1) as i32 } else { 0 },
                    ..e
                }
            } else {
                e
            }
        },
    }
}

/// Whether a drop request engages the fast drop anew.
pub open spec fn engages(e: Engine) -> bool {
    !e.paused && !e.in_bazaar && e.phase != Phase::Over && e.drop_time != e.fast_drop_time
}

/// The engine after a drop request: unless paused, in the bazaar or over, the
/// fast drop is engaged and, if it was not yet in use, the drop timer restarts
/// at the fast interval.
pub open spec fn fast(e: Engine) -> Engine {
    if e.paused || e.in_bazaar || e.phase == Phase::Over {
        e
    } else if e.drop_time == e.fast_drop_time {
        Engine { dropping: true, ..e }
    } else {
        Engine { dropping: true, drop_time: e.fast_drop_time, drop_accum: 0, ..e }
    }
}

/// The line scan of a standard board stays within `i32`.
proof fn lemma_standard_budget(b: Board)
    requires
        b.width == BT_BOARD_WTH,
        b.height == BT_BOARD_HGT,
        b.values_ok(),
    ensures
        b.scan_budget() == 842,
        b.tally_fits(),
{
    assert(b.scan_budget() == 842);
    assert(842 * 842 * (10 * 255) == 1807858200) by (nonlinear_arith);
    assert(28 * 28 * (10 * 255) == 1999200) by (nonlinear_arith);
    lemma_tally_bounded(b);
}

/// Board `m` is board `o` with weapon `t`'s flag set on or off.
pub open spec fn flag_set(m: Board, o: Board, t: WeaponToken, on: bool) -> bool {
    &&& m.active@ == o.active@.update(token_index(t), if on { 1i32 } else { 0i32 })
    &&& m.width == o.width
    &&& m.height == o.height
    &&& m.grid() == o.grid()
    &&& m.fresh() == o.fresh()
    &&& m.upside == o.upside
    &&& m.computer == o.computer
    &&& m.idiot == o.idiot
    &&& m.reason == o.reason
}

/// Board `b` is board `m` after weapon `t`'s one-shot effect, the random
/// state going from `s0` to `s1`.
pub open spec fn effect_applied(b: Board, m: Board, t: WeaponToken, s0: u64, s1: u64) -> bool {
    &&& b.wf()
    &&& b.width == m.width
    &&& b.height == m.height
    &&& b.active == m.active
    &&& b.computer == m.computer
    &&& b.fresh() == m.fresh()
    &&& b.upside == (m.upside || t == WeaponToken::Upbyside)
    &&& t != WeaponToken::Bottle ==> b.idiot == m.idiot && b.reason == m.reason
    &&& b.weapon_effect(&m, t, s0, s1)
}

/// Board `b` is board `o` with weapon `t`'s effect reverted.
pub open spec fn effect_reverted(b: Board, o: Board, t: WeaponToken) -> bool {
    &&& b.wf()
    &&& b.width == o.width
    &&& b.height == o.height
    &&& b.active == o.active
    &&& b.computer == o.computer
    &&& b.fresh() == o.fresh()
    &&& b.idiot == o.idiot
    &&& b.reason == o.reason
    &&& b.upside == (o.upside && t != WeaponToken::Upbyside)
    &&& b.weapon_reverted(&o, t)
}

/// Engine `e` is engine `o` after weapon `t` from the opponent takes effect:
/// its flag is set, its duration added, its board effect applied, the piece
/// supply told; Upbyside flips the spawn point, fall direction and moves;
/// Speedy halves the normal drop interval and Meadow doubles both (the interval
/// in use follows unless the fast drop is engaged, Speedy's never below 1);
/// Keating seizes the funds (reported for the attacker), Reagan negates them.
pub open spec fn armed(e: Engine, o: Engine, t: WeaponToken) -> bool {
    let i = token_index(t);
    let up = t == WeaponToken::Upbyside;
    let speedy = t == WeaponToken::Speedy;
    let meadow = t == WeaponToken::Meadow;
    let base = if speedy {
        o.base_drop_time >> 1
    } else if meadow {
        o.base_drop_time << 1
    } else {
        o.base_drop_time
    };
    let fast_time = if meadow { o.fast_drop_time << 1 } else { o.fast_drop_time };
    &&& e.weapons@ == o.weapons@.update(i, 1i32)
    &&& e.remaining@ == o.remaining@.update(i, (o.remaining@[i] + duration_spec(t)) as i32)
    &&& exists|m: Board| #[trigger] flag_set(m, o.board, t, true) && effect_applied(e.board, m, t, o.rng@, e.rng@)
    &&& e.deck@ == o.deck@.push((t, true))
    &&& e.events@ == if t == WeaponToken::Keating && o.score.funds != 0 {
        o.events@.push(GameEvent::FundsStolen(o.score.funds))
    } else {
        o.events@
    }
    &&& e == Engine {
        board: e.board,
        rng: e.rng,
        weapons: e.weapons,
        remaining: e.remaining,
        deck: e.deck,
        events: e.events,
        def_y: if up { (BT_BOARD_HGT - 4) as i32 } else { o.def_y },
        delta_y: if up { -1i32 } else { o.delta_y },
        left_x: if up { 1 } else { o.left_x },
        right_x: if up { -1i32 } else { o.right_x },
        base_drop_time: base,
        fast_drop_time: fast_time,
        drop_time: if (speedy || meadow) && o.drop_time != fast_time {
            if speedy && base < 1 { 1 } else { base }
        } else {
            o.drop_time
        },
        score: if t == WeaponToken::Keating {
            Score { funds: 0, ..o.score }
        } else if t == WeaponToken::Reagan {
            Score { funds: (-o.score.funds) as i64, ..o.score }
        } else {
            o.score
        },
        ..o
    }
}

/// Engine `e` is engine `o` after weapon `t`'s duration ran out: its flag is
/// cleared, its board effect reverted, the piece supply told; Upbyside puts
/// the spawn point, fall direction and moves back; Speedy doubles the normal
/// drop interval back, Meadow halves both back.
pub open spec fn disarmed(e: Engine, o: Engine, t: WeaponToken) -> bool {
    let up = t == WeaponToken::Upbyside;
    &&& e.weapons@ == o.weapons@.update(token_index(t), 0i32)
    &&& exists|m: Board| #[trigger] effect_reverted(m, o.board, t) && flag_set(e.board, m, t, false)
    &&& e.deck@ == o.deck@.push((t, false))
    &&& e == Engine {
        board: e.board,
        weapons: e.weapons,
        deck: e.deck,
        def_x: if up { BT_DEFAULT_X } else { o.def_x },
        def_y: if up { BT_DEFAULT_Y } else { o.def_y },
        delta_y: if up { 1 } else { o.delta_y },
        left_x: if up { -1i32 } else { o.left_x },
        right_x: if up { 1 } else { o.right_x },
        base_drop_time: if t == WeaponToken::Speedy {
            o.base_drop_time << 1
        } else if t == WeaponToken::Meadow {
            o.base_drop_time >> 1
        } else {
            o.base_drop_time
        },
        fast_drop_time: if t == WeaponToken::Meadow { o.fast_drop_time >> 1 } else { o.fast_drop_time },
        ..o
    }
}

/// `run` steps through weapons `ts` switched off one after the other.
pub open spec fn disarm_run(run: Seq<Engine>, ts: Seq<WeaponToken>) -> bool {
    &&& run.len() == ts.len() + 1
    &&& forall|k: int| 0 <= k < ts.len() ==> disarmed(run[k + 1], run[k], #[trigger] ts[k])
}

/// Weapons `ts` switched off one after the other, from `o` to `e`.
pub open spec fn disarmed_all(e: Engine, o: Engine, ts: Seq<WeaponToken>) -> bool {
    exists|run: Seq<Engine>| #[trigger] disarm_run(run, ts) && run[0] == o && run.last() == e
}

/// `run` steps through weapons `ts` taking effect one after the other.
pub open spec fn arm_run(run: Seq<Engine>, ts: Seq<WeaponToken>) -> bool {
    &&& run.len() == ts.len() + 1
    &&& forall|k: int| 0 <= k < ts.len() ==> armed(run[k + 1], run[k], #[trigger] ts[k])
}

/// Weapons `ts` taking effect one after the other, from `o` to `e`.
pub open spec fn armed_all(e: Engine, o: Engine, ts: Seq<WeaponToken>) -> bool {
    exists|run: Seq<Engine>| #[trigger] arm_run(run, ts) && run[0] == o && run.last() == e
}

/// Weapon `t` forced off: switched off if in effect, its duration zeroed.
pub open spec fn forced_off(e: Engine, o: Engine, t: WeaponToken) -> bool {
    let i = token_index(t);
    if o.on(t) {
        exists|m: Engine|
            #[trigger] disarmed(m, o, t) && e == Engine { remaining: e.remaining, ..m } && e.remaining@ == m.remaining@.update(i, 0i32)
    } else {
        e == Engine { remaining: e.remaining, ..o } && e.remaining@ == o.remaining@.update(i, 0i32)
    }
}

/// Every duration counted down by `lines`, from `o` to `m`.
pub open spec fn counted(m: Engine, o: Engine, lines: int) -> bool {
    &&& m == Engine { remaining: m.remaining, ..o }
    &&& forall|i: int| 0 <= i < 34 ==> #[trigger] m.remaining@[i] == counted_down(o.remaining@[i], lines)
}

/// The durations counted down by `lines`, and the weapons that ran out
/// switched off in index order.
pub open spec fn durations_counted(e: Engine, o: Engine, lines: int) -> bool {
    exists|m: Engine| #[trigger] counted(m, o, lines) && disarmed_all(e, m, expiring(o.remaining@, lines, 34))
}

/// The bazaar countdown recounted from both players' lines; the bazaar opens
/// (and `EnterBazaar` is reported) when it jumps up.
pub open spec fn bazaar_updated(e: Engine, o: Engine) -> bool {
    let til = til_bazaar(o.score.lines as int, o.score.op_lines as int);
    let opens = til > o.lines_til_baz;
    &&& e == Engine { lines_til_baz: til as i32, in_bazaar: o.in_bazaar || opens, events: e.events, ..o }
    &&& e.events@ == if opens { o.events@.push(GameEvent::EnterBazaar) } else { o.events@ }
}

/// The words a board holds after an import: a grid of the right size
/// replaces its squares; other words leave it as it was.
pub open spec fn imported(b: Board, o: Board, w: Seq<i32>) -> bool {
    &&& b.wf()
    &&& b.same_but_grid(&o)
    &&& w.len() == 4 * o.grid().len() ==> b.grid() == words_grid(w, o.grid().len() as int)
    &&& w.len() != 4 * o.grid().len() ==> b.grid() == o.grid()
}

/// A board exchanged by Swap, if one waits, installed: Bottle and Upbyside are
/// forced off first.
pub open spec fn installed(e: Engine, o: Engine) -> bool {
    match o.incoming_board {
        None => e == o,
        Some(w) => exists|a: Engine, b: Engine|
            #[trigger] forced_off(a, Engine { incoming_board: None, ..o }, WeaponToken::Bottle) && #[trigger] forced_off(
                b,
                a,
                WeaponToken::Upbyside,
            ) && e == Engine { board: e.board, ..b } && imported(e.board, b.board, w@),
    }
}

/// The weapons received from the opponent take effect in order of arrival.
pub open spec fn flushed(e: Engine, o: Engine) -> bool {
    &&& e.pending@.len() == 0
    &&& armed_all(e, Engine { pending: e.pending, ..o }, o.pending@)
}

/// The durations a list of weapons adds to weapon `t`.
pub open spec fn load(s: Seq<WeaponToken>, t: WeaponToken) -> int
    decreases s.len(),
{
    if s.len() == 0 {
        0
    } else {
        (if s[0] == t { duration_spec(t) as int } else { 0 }) + load(s.drop_first(), t)
    }
}

/// No weapon switched off leaves the engine as it was.
proof fn lemma_disarmed_none(o: Engine)
    ensures
        disarmed_all(o, o, Seq::empty()),
{
    assert(disarm_run(seq![o], Seq::empty()));
}

/// One more weapon switched off extends a chain of weapons switched off.
proof fn lemma_disarmed_step(e: Engine, m: Engine, o: Engine, ts: Seq<WeaponToken>, t: WeaponToken)
    requires
        disarmed_all(m, o, ts),
        disarmed(e, m, t),
    ensures
        disarmed_all(e, o, ts.push(t)),
{
    let run = choose|run: Seq<Engine>| #[trigger] disarm_run(run, ts) && run[0] == o && run.last() == m;
    let r2 = run.push(e);
    let s = ts.push(t);
    assert forall|k: int| 0 <= k < s.len() implies disarmed(r2[k + 1], r2[k], #[trigger] s[k]) by {
        if k < ts.len() {
            assert(s[k] == ts[k]);
            assert(disarmed(run[k + 1], run[k], ts[k]));
        }
    }
    assert(disarm_run(r2, s));
}

/// No weapon taking effect leaves the engine as it was.
proof fn lemma_armed_none(o: Engine)
    ensures
        armed_all(o, o, Seq::empty()),
{
    assert(arm_run(seq![o], Seq::empty()));
}

/// One more weapon taking effect extends a chain of weapons taking effect.
proof fn lemma_armed_step(e: Engine, m: Engine, o: Engine, ts: Seq<WeaponToken>, t: WeaponToken)
    requires
        armed_all(m, o, ts),
        armed(e, m, t),
    ensures
        armed_all(e, o, ts.push(t)),
{
    let run = choose|run: Seq<Engine>| #[trigger] arm_run(run, ts) && run[0] == o && run.last() == m;
    let r2 = run.push(e);
    let s = ts.push(t);
    assert forall|k: int| 0 <= k < s.len() implies armed(r2[k + 1], r2[k], #[trigger] s[k]) by {
        if k < ts.len() {
            assert(s[k] == ts[k]);
            assert(armed(run[k + 1], run[k], ts[k]));
        }
    }
    assert(arm_run(r2, s));
}

/// A load is never negative.
proof fn lemma_load_nonneg(s: Seq<WeaponToken>, t: WeaponToken)
    ensures
        load(s, t) >= 0,
    decreases s.len(),
{
    if s.len() > 0 {
        lemma_load_nonneg(s.drop_first(), t);
    }
}

/// The durations pending weapons add can be counted in `i32`.
pub open spec fn loads_fit(e: Engine) -> bool {
    forall|i: int| 0 <= i < 34 ==> #[trigger] e.remaining@[i] + load(e.pending@, token_at(i)) <= i32::MAX
}

/// The falling piece `p` of engine `o` resumes falling: it still fits a row
/// further, so it moves there instead of locking.
pub open spec fn resumed(o: Engine, p: Piece) -> Engine {
    let ny = o.y + o.delta_y;
    Engine {
        y: ny as i32,
        current: Some(Piece { x: o.x, y: ny as i32, ..p }),
        phase: Phase::Falling,
        drop_accum: 0,
        sliding: 0,
        ..o
    }
}

/// Engine `e` is engine `o` with its falling piece `p` locked and the full
/// rows cleared (`clear`): an airslide is reported when a fast drop slid into
/// a place the piece could not have come down to; the lines are counted and
/// the piece is gone.
pub open spec fn locked(e: Engine, o: Engine, p: Piece, clear: LineClear) -> bool {
    let up = o.y - o.delta_y;
    let air = o.dropping && o.sliding <= 1 && !(near(o.x as int, up) && p.fits(&o.board, o.x as int, up));
    &&& e == Engine {
        board: e.board,
        score: Score { lines: (o.score.lines + clear.lines) as i64, ..o.score },
        current: None,
        sliding: 0,
        events: e.events,
        ..o
    }
    &&& e.events@ == if air { o.events@.push(GameEvent::Airslide) } else { o.events@ }
    &&& 0 <= clear.lines <= 842
    &&& exists|l: Board| #[trigger] locked_in(p, &o.board, &l) && e.board.lines_cleared(&l, clear)
}

/// Board `b` is board `o` with the idiot signal flushed.
pub open spec fn idiot_flushed(b: Board, o: Board) -> bool {
    &&& !b.idiot
    &&& b.reason == o.reason
    &&& b.width == o.width
    &&& b.height == o.height
    &&& b.grid() == o.grid()
    &&& b.fresh() == o.fresh()
    &&& b.active == o.active
    &&& b.upside == o.upside
    &&& b.computer == o.computer
}

/// A lock's funds banked: Mondale's tax (the funds not kept) reported for the
/// attacker when nonzero, the kept funds added, `Locked` reported, then the
/// idiot signal flushed and reported.
pub open spec fn booked(a: Engine, o: Engine, clear: LineClear, kept: i64) -> bool {
    let tax = clear.funds - kept;
    &&& a == Engine {
        score: Score { funds: (o.score.funds + kept) as i64, ..o.score },
        board: a.board,
        events: a.events,
        ..o
    }
    &&& idiot_flushed(a.board, o.board)
    &&& a.events@ == o.events@ + (if tax != 0 {
        seq![GameEvent::FundsStolen(tax as i64)]
    } else {
        Seq::empty()
    }) + seq![GameEvent::Locked { lines: clear.lines, value: clear.value, funds: clear.funds }] + (if o.board.idiot {
        seq![GameEvent::Idiot(o.board.reason)]
    } else {
        Seq::empty()
    })
}

/// Cleared lines count the weapon durations down and recount the bazaar.
pub open spec fn lines_booked(b: Engine, a: Engine, lines: int) -> bool {
    if lines > 0 {
        exists|m: Engine| #[trigger] durations_counted(m, a, lines) && bazaar_updated(b, m)
    } else {
        b == a
    }
}

/// The score is reported for the opponent.
pub open spec fn scored(c: Engine, b: Engine) -> bool {
    &&& c == Engine { events: c.events, ..b }
    &&& c.events@ == b.events@.push(GameEvent::Scored { score: b.score.score, lines: b.score.lines, funds: b.score.funds })
}

/// Everything a lock settles after the lines are cleared, in order: funds
/// banked ([`booked`]), durations and bazaar ([`lines_booked`]), the score
/// reported ([`scored`]), a swapped board installed ([`installed`]), the
/// opponent's weapons applied ([`flushed`]).
pub open spec fn banked(e: Engine, o: Engine, clear: LineClear, kept: i64) -> bool {
    exists|a: Engine, b: Engine, c: Engine, d: Engine|
        #[trigger] booked(a, o, clear, kept) && #[trigger] lines_booked(b, a, clear.lines as int) && #[trigger] scored(c, b)
            && #[trigger] installed(d, c) && flushed(e, d)
}

/// Board `b` is board `o` with one garbage line inserted, the random state
/// going from `s0` to `s1`.
pub open spec fn garbage_inserted(b: Board, o: Board, s0: u64, s1: u64) -> bool {
    &&& b.wf()
    &&& b.same_but_grid(&o)
    &&& s1 == lcg_next(s0)
    &&& forall|x: int, y: int| #[trigger] b.at(x, y) == o.garbage_at(draw(lcg_next(s0)) % (o.width as int), x, y)
}

/// Boards `bs` and random states `ss` step through garbage lines inserted one
/// after the other.
pub open spec fn insert_run(bs: Seq<Board>, ss: Seq<u64>) -> bool {
    &&& bs.len() == ss.len()
    &&& bs.len() >= 1
    &&& forall|k: int| #![trigger ss[k]] 0 <= k < bs.len() - 1 ==> garbage_inserted(bs[k + 1], bs[k], ss[k], ss[k + 1])
}

/// Engine `e` is engine `o` with `n` garbage lines inserted.
pub open spec fn lawyered(e: Engine, o: Engine, n: int) -> bool {
    exists|bs: Seq<Board>, ss: Seq<u64>|
        #[trigger] insert_run(bs, ss) && bs.len() == n + 1 && bs[0] == o.board && ss[0] == o.rng@ && e == Engine {
            board: bs.last(),
            rng: e.rng,
            ..o
        } && e.rng@ == ss.last()
}

/// The garbage lines Lawyers' Delite inserts when the opponent's line count
/// goes to `op_lines`: one per new line while it is in effect.
pub open spec fn lawyer_lines(o: Engine, op_lines: i64) -> int {
    if o.on(WeaponToken::Lawyers) && op_lines - o.score.op_lines > 0 {
        op_lines - o.score.op_lines
    } else {
        0
    }
}

/// The opponent's score and funds mirrored.
pub open spec fn mirrored(o: Engine, op_score: i64, op_funds: i64) -> Engine {
    Engine { score: Score { op_score, op_funds, ..o.score }, ..o }
}

/// The opponent's line count mirrored.
pub open spec fn lines_mirrored(m: Engine, op_lines: i64) -> Engine {
    Engine { score: Score { op_lines, ..m.score }, ..m }
}

/// Engine `e` is engine `o` after the opponent's score changed: the mirror
/// takes the opponent's score and funds; under Lawyers' Delite every new
/// opponent line inserts a garbage line; then the opponent's lines are taken
/// and the bazaar recounted.
pub open spec fn op_scored(e: Engine, o: Engine, op_score: i64, op_lines: i64, op_funds: i64) -> bool {
    exists|m: Engine|
        #[trigger] lawyered(m, mirrored(o, op_score, op_funds), lawyer_lines(o, op_lines)) && bazaar_updated(
            e,
            lines_mirrored(m, op_lines),
        )
}

/// A phase as its keyframe code.
pub open spec fn phase_code(p: Phase) -> i32 {
    match p {
        Phase::Falling => 0,
        Phase::Sliding => 1,
        Phase::Over => 2,
    }
}

/// The phase a keyframe code stands for (codes 0, 1, 2).
pub open spec fn phase_of(c: i32) -> Phase {
    if c == 0 {
        Phase::Falling
    } else if c == 1 {
        Phase::Sliding
    } else {
        Phase::Over
    }
}

/// A flag as a frame word.
pub open spec fn flag_word(b: bool) -> i32 {
    if b { 1 } else { 0 }
}

/// The frame words of an engine, in the order [`Keyframe`] describes.
pub open spec fn frame_of(e: Engine) -> Seq<i32> {
    seq![
        e.x,
        e.y,
        e.def_x,
        e.def_y,
        e.delta_y,
        e.left_x,
        e.right_x,
        e.base_drop_time,
        e.fast_drop_time,
        e.drop_time,
        e.slide_time,
        flag_word(e.dropping),
        e.sliding,
        phase_code(e.phase),
        e.drop_accum,
        e.slide_accum,
        flag_word(e.paused),
        e.hatter_accum,
        e.slick_accum,
        e.slick_dir,
        flag_word(e.in_bazaar),
        e.lines_til_baz,
    ]
}

/// Keyframe `k` holds engine `e`'s state (the piece supply's state aside).
pub open spec fn holds(k: Keyframe, e: Engine) -> bool {
    &&& k.frame@ == frame_of(e)
    &&& k.score == e.score
    &&& k.rng == e.rng@
    &&& k.counts@ == e.weapons@
    &&& k.remaining@ == e.remaining@
    &&& k.arsenal@ == arsenal_words(e.arsenal.tokens(), e.arsenal.quantities())
    &&& k.piece == e.current
    &&& k.pending@ == e.pending@
    &&& k.board@ == grid_words(e.board.grid())
    &&& k.board_active@ == e.board.active@
    &&& k.board_upside == e.board.upside
    &&& k.board_computer == e.board.computer
    &&& k.board_idiot == e.board.idiot
    &&& k.board_reason == e.board.reason
}

/// A keyframe an engine can take up: a phase code, a spawn point, moves and
/// position as a game makes them, no negative duration, a falling piece that
/// can turn, sits at the frame's position and carries boxes worth 0 to 255,
/// and a board of such boxes.
pub open spec fn restorable(k: Keyframe) -> bool {
    let f = k.frame@;
    &&& 0 <= f[13] <= 2
    &&& near(f[0] as int, f[1] as int)
    &&& f[2] == BT_DEFAULT_X
    &&& (f[3] == BT_DEFAULT_Y || f[3] == BT_BOARD_HGT - 4)
    &&& (f[4] == 1 || f[4] == -1)
    &&& (f[5] == 1 || f[5] == -1)
    &&& (f[6] == 1 || f[6] == -1)
    &&& forall|i: int| 0 <= i < 34 ==> #[trigger] k.remaining@[i] >= 0
    &&& k.piece matches Some(p) ==> p.turnable() && boxes_ok(p) && p.x == f[0] && p.y == f[1]
    &&& k.board@.len() == 4 * (BT_BOARD_WTH * BT_BOARD_HGT) ==> words_values_ok(k.board@, BT_BOARD_WTH * BT_BOARD_HGT)
}

/// Engine `e` is engine `o` restored from keyframe `k`: every field the
/// keyframe holds taken from it, no event or piece-supply change left over.
pub open spec fn restored(e: Engine, o: Engine, k: Keyframe) -> bool {
    let f = k.frame@;
    &&& e == Engine {
        board: e.board,
        rng: e.rng,
        weapons: e.weapons,
        arsenal: e.arsenal,
        events: e.events,
        deck: e.deck,
        remaining: k.remaining,
        pending: k.pending,
        score: k.score,
        current: k.piece,
        x: f[0],
        y: f[1],
        def_x: f[2],
        def_y: f[3],
        delta_y: f[4],
        left_x: f[5],
        right_x: f[6],
        base_drop_time: f[7],
        fast_drop_time: f[8],
        drop_time: f[9],
        slide_time: f[10],
        dropping: f[11] != 0,
        sliding: f[12],
        phase: phase_of(f[13]),
        drop_accum: f[14],
        slide_accum: f[15],
        paused: f[16] != 0,
        hatter_accum: f[17],
        slick_accum: f[18],
        slick_dir: f[19],
        in_bazaar: f[20] != 0,
        lines_til_baz: f[21],
        ..o
    }
    &&& e.rng@ == k.rng
    &&& e.weapons@ == k.counts@
    &&& e.events@.len() == 0
    &&& e.deck@.len() == 0
    &&& forall|s: int| 0 <= s < 10 ==> (#[trigger] e.arsenal.tokens()[s], e.arsenal.quantities()[s]) == slot_of(k.arsenal@[2 * s], k.arsenal@[2 * s + 1])
    &&& e.board.wf()
    &&& e.board.width == o.board.width
    &&& e.board.height == o.board.height
    &&& e.board.grid() == words_grid(k.board@, BT_BOARD_WTH * BT_BOARD_HGT)
    &&& e.board.fresh() == o.board.fresh()
    &&& e.board.active@ == k.board_active@
    &&& e.board.upside == k.board_upside
    &&& e.board.computer == k.board_computer
    &&& e.board.idiot == k.board_idiot
    &&& e.board.reason == k.board_reason
}

/// Whether piece `p` can fall in an engine: it can turn and carries boxes
/// worth 0 to 255.
pub fn piece_ok(p: &Piece) -> (b: bool)
    ensures
        b == (p.turnable() && boxes_ok(*p)),
{
    if !(p.rot <= 8 && p.orientations >= 1 && 0 <= p.orientation && p.orientation < p.orientations && p.x <= i32::MAX - 8
        && p.y <= i32::MAX - 8 && p.orientations <= 0x4000_0000 && p.state > i32::MIN && p.state as i64 + p.orientations as i64
        <= i32::MAX as i64) {
        return false;
    }
    let mut i: usize = 0;
    while i < 8
        invariant
            0 <= i <= 8,
            forall|a: int, b: int| 0 <= a < i && 0 <= b < 8 ==> (#[trigger] p.cells[a][b] matches Some(c) ==> 0 <= c.value() <= 255),
        decreases 8 - i,
    {
        let mut j: usize = 0;
        while j < 8
            invariant
                0 <= i < 8,
                0 <= j <= 8,
                forall|a: int, b: int| 0 <= a < i && 0 <= b < 8 ==> (#[trigger] p.cells[a][b] matches Some(c) ==> 0 <= c.value() <= 255),
                forall|b: int| 0 <= b < j ==> (#[trigger] p.cells[i as int][b] matches Some(c) ==> 0 <= c.value() <= 255),
            decreases 8 - j,
        {
            if let Some(c) = p.cells[i][j] {
                let v = c.value();
                if v < 0 || v > 255 {
                    return false;
                }
            }
            j = j + 1;
        }
        i = i + 1;
    }
    true
}

/// Whether an engine can take up keyframe `k` (see [`restorable`]).
fn keyframe_ok(k: &Keyframe) -> (b: bool)
    ensures
        b == restorable(*k),
{
    let f = &k.frame;
    if !(0 <= f[13] && f[13] <= 2 && near_exec(f[0], f[1]) && f[2] == BT_DEFAULT_X && (f[3] == BT_DEFAULT_Y || f[3]
        == BT_BOARD_HGT - 4) && (f[4] == 1 || f[4] == -1) && (f[5] == 1 || f[5] == -1) && (f[6] == 1 || f[6] == -1)) {
        return false;
    }
    let mut i: usize = 0;
    while i < 34
        invariant
            0 <= i <= 34,
            forall|j: int| 0 <= j < i ==> #[trigger] k.remaining@[j] >= 0,
        decreases 34 - i,
    {
        if k.remaining[i] < 0 {
            return false;
        }
        i = i + 1;
    }
    if let Some(p) = &k.piece {
        if !(piece_ok(p) && p.x == f[0] && p.y == f[1]) {
            return false;
        }
    }
    if k.board.len() == 4 * 280 {
        return words_in_range(&k.board, 280);
    }
    true
}

/// Every square of a board whose boxes are worth 0 to 255 holds such a box
/// or none.
proof fn lemma_grid_values(b: Board)
    requires
        b.wf(),
        b.width == BT_BOARD_WTH,
        b.height == BT_BOARD_HGT,
        b.values_ok(),
    ensures
        forall|k: int| 0 <= k < b.grid().len() ==> (#[trigger] b.grid()[k] matches Some(c) ==> 0 <= c.value() <= 255),
{
    assert forall|k: int| 0 <= k < b.grid().len() implies (#[trigger] b.grid()[k] matches Some(c) ==> 0 <= c.value() <= 255) by {
        let x = k % 10;
        let y = k / 10;
        assert(y * 10 + x == k);
        assert(b.at(x, y) == b.grid()[k]);
        assert(b.at(x, y) matches Some(c) ==> 0 <= c.value() <= 255);
    }
}

/// The words a standard board with boxes worth 0 to 255 exports denote only
/// such boxes.
pub proof fn lemma_export_values(b: Board)
    requires
        b.wf(),
        b.width == BT_BOARD_WTH,
        b.height == BT_BOARD_HGT,
        b.values_ok(),
    ensures
        grid_words(b.grid()).len() == 4 * (BT_BOARD_WTH * BT_BOARD_HGT),
        words_values_ok(grid_words(b.grid()), BT_BOARD_WTH * BT_BOARD_HGT),
{
    let g = b.grid();
    lemma_board_round_trip(g);
    crate::exchange::lemma_grid_words(g);
    lemma_grid_values(b);
    assert forall|i: int| 0 <= i < BT_BOARD_WTH * BT_BOARD_HGT implies ((#[trigger] decode_spec(grid_words(g).subrange(4 * i, 4 * i + 4))) matches Some(c) ==> 0 <= c.value() <= 255) by {
        assert(words_grid(grid_words(g), g.len() as int)[i] == g[i]);
    }
}

/// An engine's own keyframe, written out as words, is taken up again: the
/// words are well formed, they read back as the keyframe, and every keyframe
/// read from them is one an engine takes up (so [`Engine::restore`] succeeds
/// on them), as long as no more weapons are pending than the words can carry
/// and the falling piece turns in a square the words know (every piece
/// kind's does).
pub proof fn lemma_engine_keyframe_restores(e: Engine, k: Keyframe)
    requires
        e.wf(),
        holds(k, e),
        k.pending@.len() <= 1024,
        e.current matches Some(p) ==> (p.rot == 0 || p.rot == 3 || p.rot == 4 || p.rot == 8),
    ensures
        well_formed(k.words(), 4 * (BT_BOARD_WTH * BT_BOARD_HGT)),
        k.read_from(k.words(), 4 * (BT_BOARD_WTH * BT_BOARD_HGT)),
        restorable(k),
        forall|k2: Keyframe| #[trigger] k2.read_from(k.words(), 4 * (BT_BOARD_WTH * BT_BOARD_HGT)) ==> restorable(k2),
{
    let g = e.board.grid();
    lemma_board_round_trip(g);
    crate::exchange::lemma_grid_words(g);
    lemma_export_values(e.board);
    assert(restorable(k));
    assert(k.writable(4 * (BT_BOARD_WTH * BT_BOARD_HGT)));
    crate::keyframe::lemma_keyframe_round_trip(k, 4 * (BT_BOARD_WTH * BT_BOARD_HGT));
    let d = k.words();
    assert forall|k2: Keyframe| #[trigger] k2.read_from(d, 1120) implies restorable(k2) by {
        assert(k2.frame@ == k.frame@);
        assert(k2.remaining@ == k.remaining@);
        assert(k2.board@ == k.board@);
        if d[140] != 0 {
            let p = k.piece.unwrap();
            let p2 = k2.piece.unwrap();
            assert(p2.x == p.x && p2.y == p.y && p2.rot == p.rot && p2.orientation == p.orientation);
            assert(p2.orientations == p.orientations && p2.state == p.state);
            assert forall|i: int, j: int| 0 <= i < 8 && 0 <= j < 8 implies #[trigger] p2.cells[i][j] == p.cells[i][j] by {
                assert(p2.cells[i][j] == decode_spec(crate::keyframe::square_words(d, i, j)));
                assert(p.cells[i][j] == decode_spec(crate::keyframe::square_words(d, i, j)));
            }
            assert(p2.turnable() == p.turnable());
            assert forall|i: int, j: int| 0 <= i < 8 && 0 <= j < 8 implies (#[trigger] p2.cells[i][j] matches Some(c) ==> 0 <= c.value() <= 255) by {
                assert(p2.cells[i][j] == p.cells[i][j]);
            }
        } else {
            assert(k2.piece is None && k.piece is None);
        }
    }
}

/// A keyframe of an engine is one an engine can take up, and taking it up
/// gives every field it holds back: position and timers, phase and flags,
/// score, random state, weapons and their durations, arsenal, falling piece,
/// pending weapons, and the board's squares and flags.
pub proof fn lemma_engine_round_trip(e: Engine, k: Keyframe, o: Engine, e2: Engine)
    requires
        e.wf(),
        o.wf(),
        holds(k, e),
        restored(e2, o, k),
    ensures
        restorable(k),
        frame_of(e2) == frame_of(e),
        e2.x == e.x && e2.y == e.y && e2.def_x == e.def_x && e2.def_y == e.def_y,
        e2.delta_y == e.delta_y && e2.left_x == e.left_x && e2.right_x == e.right_x,
        e2.base_drop_time == e.base_drop_time && e2.fast_drop_time == e.fast_drop_time,
        e2.drop_time == e.drop_time && e2.slide_time == e.slide_time,
        e2.dropping == e.dropping && e2.sliding == e.sliding && e2.phase == e.phase,
        e2.drop_accum == e.drop_accum && e2.slide_accum == e.slide_accum && e2.paused == e.paused,
        e2.hatter_accum == e.hatter_accum && e2.slick_accum == e.slick_accum && e2.slick_dir == e.slick_dir,
        e2.in_bazaar == e.in_bazaar && e2.lines_til_baz == e.lines_til_baz,
        e2.score == e.score,
        e2.rng@ == e.rng@,
        e2.weapons@ == e.weapons@,
        e2.remaining@ == e.remaining@,
        e2.arsenal.tokens() == e.arsenal.tokens(),
        e2.arsenal.quantities() == e.arsenal.quantities(),
        e2.current == e.current,
        e2.pending@ == e.pending@,
        e2.board.grid() == e.board.grid(),
        e2.board.active@ == e.board.active@,
        e2.board.upside == e.board.upside && e2.board.computer == e.board.computer,
        e2.board.idiot == e.board.idiot && e2.board.reason == e.board.reason,
{
    let g = e.board.grid();
    lemma_board_round_trip(g);
    crate::exchange::lemma_grid_words(g);
    lemma_export_values(e.board);
    assert(restorable(k));
    let f = k.frame@;
    assert(f == frame_of(e));
    assert(e2.dropping == (f[11] != 0));
    assert(e2.phase == phase_of(f[13]));
    assert(frame_of(e2) =~= frame_of(e));
    e.arsenal.lemma_len();
    lemma_arsenal_round_trip(e.arsenal.tokens(), e.arsenal.quantities());
    e2.arsenal.lemma_len();
    assert forall|s: int| 0 <= s < 10 implies #[trigger] e2.arsenal.tokens()[s] == e.arsenal.tokens()[s] && e2.arsenal.quantities()[s] == e.arsenal.quantities()[s] by {
        assert((e2.arsenal.tokens()[s], e2.arsenal.quantities()[s]) == slot_of(k.arsenal@[2 * s], k.arsenal@[2 * s + 1]));
    }
    assert(e2.arsenal.tokens() =~= e.arsenal.tokens());
    assert forall|s: int| 0 <= s < 10 implies #[trigger] e2.arsenal.quantities()[s] == e.arsenal.quantities()[s] by {
        assert(e2.arsenal.tokens()[s] == e.arsenal.tokens()[s]);
    }
    assert(e2.arsenal.quantities() =~= e.arsenal.quantities());
    assert(e2.board.grid() =~= e.board.grid());
}

/// Upbyside switched on and then off gives back the spawn point, the fall
/// direction, the moves and (for a board that was not already flipped) every
/// square.
pub proof fn lemma_upbyside_on_off(e0: Engine, e1: Engine, e2: Engine)
    requires
        e0.wf(),
        !e0.board.upside,
        e0.def_y == BT_DEFAULT_Y && e0.delta_y == 1 && e0.left_x == -1 && e0.right_x == 1,
        armed(e1, e0, WeaponToken::Upbyside),
        disarmed(e2, e1, WeaponToken::Upbyside),
    ensures
        e2.def_x == e0.def_x && e2.def_y == e0.def_y,
        e2.delta_y == e0.delta_y && e2.left_x == e0.left_x && e2.right_x == e0.right_x,
        forall|x: int, y: int| #[trigger] e2.board.at(x, y) == e0.board.at(x, y),
{
    let t = WeaponToken::Upbyside;
    let m1 = choose|m: Board| #[trigger] flag_set(m, e0.board, t, true) && effect_applied(e1.board, m, t, e0.rng@, e1.rng@);
    let m2 = choose|m: Board| #[trigger] effect_reverted(m, e1.board, t) && flag_set(e2.board, m, t, false);
    lemma_upbyside_undone(m1, e1.board, m2, e0.rng@, e1.rng@);
    assert forall|x: int, y: int| #[trigger] e2.board.at(x, y) == e0.board.at(x, y) by {
        assert(e2.board.at(x, y) == m2.at(x, y));
        assert(m1.at(x, y) == e0.board.at(x, y));
    }
}

/// Speedy switched on and then off gives back an even normal drop interval;
/// Meadow switched on and then off gives back both intervals when doubling
/// them fits in `i32`.
pub proof fn lemma_pace_on_off(e0: Engine, e1: Engine, e2: Engine, t: WeaponToken)
    requires
        armed(e1, e0, t),
        disarmed(e2, e1, t),
        t == WeaponToken::Speedy ==> e0.base_drop_time % 2 == 0,
        t == WeaponToken::Meadow ==> -0x4000_0000 <= e0.base_drop_time < 0x4000_0000 && -0x4000_0000 <= e0.fast_drop_time
            < 0x4000_0000,
        t == WeaponToken::Speedy || t == WeaponToken::Meadow,
    ensures
        e2.base_drop_time == e0.base_drop_time,
        e2.fast_drop_time == e0.fast_drop_time,
{
    let b = e0.base_drop_time;
    let f = e0.fast_drop_time;
    if t == WeaponToken::Speedy {
        assert(b % 2 == 0 ==> (b >> 1) << 1 == b) by (bit_vector);
    } else {
        assert(-0x4000_0000 <= b < 0x4000_0000 ==> (b << 1) >> 1 == b) by (bit_vector);
        assert(-0x4000_0000 <= f < 0x4000_0000 ==> (f << 1) >> 1 == f) by (bit_vector);
    }
}

/// Swap Meet between engines `a0` and `b0`, giving `a1` and `b1`: both drop
/// Bottle, then Upbyside, and the two grids trade places; all else stays with
/// its player.
pub open spec fn boards_swapped(a1: Engine, b1: Engine, a0: Engine, b0: Engine) -> bool {
    exists|a: Engine, b: Engine, c: Engine, d: Engine|
        #[trigger] forced_off(a, a0, WeaponToken::Bottle) && #[trigger] forced_off(b, b0, WeaponToken::Bottle)
            && #[trigger] forced_off(c, a, WeaponToken::Upbyside) && #[trigger] forced_off(d, b, WeaponToken::Upbyside)
            && a1 == (Engine { board: a1.board, ..c }) && b1 == (Engine { board: b1.board, ..d }) && a1.board.grid()
            == d.board.grid() && b1.board.grid() == c.board.grid() && a1.board.same_but_grid(&c.board)
            && b1.board.same_but_grid(&d.board)
}

/// Engine `e` is engine `o` after a request to fire slot `slot`: unless in
/// the bazaar or over, a weapon in the slot leaves it (see `use_slot_spec`) and
/// is reported as `WeaponLaunched`; otherwise nothing changes.
pub open spec fn fired(e: Engine, o: Engine, slot: int) -> bool {
    let shot = if !o.in_bazaar && o.phase != Phase::Over && 0 <= slot < 10 {
        o.arsenal.tokens()[slot]
    } else {
        None::<WeaponToken>
    };
    &&& shot matches Some(t) ==> (e.arsenal.tokens(), e.arsenal.quantities()) == crate::arsenal::use_slot_spec(
        o.arsenal.tokens(),
        o.arsenal.quantities(),
        slot,
    ) && e.events@ == o.events@.push(GameEvent::WeaponLaunched(t))
    &&& shot is None ==> e == o
    &&& e == Engine { arsenal: e.arsenal, events: e.events, ..o }
}

impl Engine {
    /// A new game seeded with `seed`, before its first piece: standard board,
    /// spawn point and timers at their defaults, nothing in effect, an empty
    /// arsenal, the bazaar a full interval away.
    pub fn new(seed: u64) -> (e: Engine)
        ensures
            e.wf(),
            e.board.width == BT_BOARD_WTH && e.board.height == BT_BOARD_HGT,
            forall|x: int, y: int| #[trigger] e.board.at(x, y) is None,
            e.board.active@ == Seq::new(34, |i: int| 0i32),
            !e.board.computer && !e.board.upside && !e.board.idiot,
            e.rng@ == seed_state(seed),
            e.score == (Score { score: 0, op_score: 0, lines: 0, op_lines: 0, funds: 0, op_funds: 0 }),
            e.current is None,
            e.x == BT_DEFAULT_X && e.y == BT_DEFAULT_Y,
            e.def_x == BT_DEFAULT_X && e.def_y == BT_DEFAULT_Y,
            e.delta_y == 1 && e.left_x == -1 && e.right_x == 1,
            e.base_drop_time == BT_DROP_TIME && e.fast_drop_time == BT_FAST_DROP_TIME,
            e.drop_time == BT_DROP_TIME && e.slide_time == BT_SLIDE_TIME,
            !e.dropping && e.sliding == 0 && e.phase == Phase::Falling,
            e.drop_accum == 0 && e.slide_accum == 0 && !e.paused,
            e.weapons@ == Seq::new(34, |i: int| 0i32),
            e.remaining@ == Seq::new(34, |i: int| 0i32),
            e.arsenal.tokens() == (Seq::new(10, |i: int| None::<WeaponToken>)),
            e.arsenal.quantities() == Seq::new(10, |i: int| 0u16),
            e.pending@.len() == 0,
            e.incoming_board is None,
            e.hatter_accum == 0 && e.slick_accum == 0 && e.slick_dir == 0,
            !e.in_bazaar && e.lines_til_baz == BT_LINES_TIL_BAZ,
            e.events@.len() == 0,
            e.deck@.len() == 0,
    {
        let board = Board::standard(false);
        proof {
            assert(board.values_ok());
        }
        let e = Engine {
            board,
            rng: Rng::new(seed),
            score: Score { score: 0, op_score: 0, lines: 0, op_lines: 0, funds: 0, op_funds: 0 },
            current: None,
            x: BT_DEFAULT_X,
            y: BT_DEFAULT_Y,
            def_x: BT_DEFAULT_X,
            def_y: BT_DEFAULT_Y,
            delta_y: 1,
            left_x: -1,
            right_x: 1,
            base_drop_time: BT_DROP_TIME,
            fast_drop_time: BT_FAST_DROP_TIME,
            drop_time: BT_DROP_TIME,
            slide_time: BT_SLIDE_TIME,
            dropping: false,
            sliding: 0,
            phase: Phase::Falling,
            drop_accum: 0,
            slide_accum: 0,
            paused: false,
            weapons: ActiveFlags::new(),
            remaining: [0i32; 34],
            arsenal: Arsenal::new(),
            pending: Vec::new(),
            incoming_board: None,
            hatter_accum: 0,
            slick_accum: 0,
            slick_dir: 0,
            in_bazaar: false,
            lines_til_baz: BT_LINES_TIL_BAZ,
            events: Vec::new(),
            deck: Vec::new(),
        };
        assert(e.remaining@ =~= Seq::new(34, |i: int| 0i32));
        e
    }

    /// Enter piece `p` (from the host's piece supply) at the spawn point,
    /// shifted left by half its turning square; where it does not fit, the
    /// player tops out and `GameOver` is reported. Returns whether it entered.
    pub fn spawn(&mut self, p: Piece) -> (ok: bool)
        requires
            old(self).wf(),
            p.turnable(),
            boxes_ok(p),
        ensures
            final(self).wf(),
            ok == p.fits(&old(self).board, old(self).def_x - (p.rot as int) / 2, old(self).def_y as int),
            ok ==> *final(self) == spawned(*old(self), p),
            !ok ==> *final(self) == (Engine { events: final(self).events, ..spawned(*old(self), p) }),
            !ok ==> final(self).events@ == old(self).events@.push(GameEvent::GameOver),
    {
        let mut p = p;
        self.x = self.def_x;
        self.y = self.def_y;
        let x = self.def_x - (p.rot as i32) / 2;
        self.x = x;
        if !p.move_to(&self.board, x, self.y) {
            self.current = None;
            self.phase = Phase::Over;
            self.events.push(GameEvent::GameOver);
            return false;
        }
        self.current = Some(p);
        self.dropping = false;
        self.drop_time = self.base_drop_time;
        self.phase = Phase::Falling;
        self.drop_accum = 0;
        true
    }

    /// One drop step (see [`dropped`]).
    fn drop_step(&mut self)
        requires
            old(self).wf(),
        ensures
            final(self).wf(),
            *final(self) == dropped(*old(self)),
    {
        if let Some(p) = &self.current {
            let mut q = *p;
            let ny = self.y + self.delta_y;
            if near_exec(self.x, ny) && q.move_to(&self.board, self.x, ny) {
                self.y = ny;
                self.current = Some(q);
            } else {
                self.start_slide();
            }
        }
    }

    /// Start the slide timer (see [`slid`]).
    fn start_slide(&mut self)
        ensures
            *final(self) == slid(*old(self)),
    {
        self.sliding = 1;
        self.slide_time = if self.weapons.is_active(WeaponToken::NoSlide) { 0 } else { BT_SLIDE_TIME };
        self.phase = Phase::Sliding;
        self.slide_accum = 0;
    }

    /// Move left (right, under Upbyside) unless paused or over (see [`shifted`]).
    pub fn move_left(&mut self)
        requires
            old(self).wf(),
            old(self).sliding < i32::MAX,
        ensures
            final(self).wf(),
            *final(self) == if old(self).paused || old(self).phase == Phase::Over {
                *old(self)
            } else {
                shifted(*old(self), old(self).left_x as int)
            },
    {
        let dx = self.left_x;
        self.shift(dx);
    }

    /// Move right (left, under Upbyside) unless paused or over (see [`shifted`]).
    pub fn move_right(&mut self)
        requires
            old(self).wf(),
            old(self).sliding < i32::MAX,
        ensures
            final(self).wf(),
            *final(self) == if old(self).paused || old(self).phase == Phase::Over {
                *old(self)
            } else {
                shifted(*old(self), old(self).right_x as int)
            },
    {
        let dx = self.right_x;
        self.shift(dx);
    }

    fn shift(&mut self, dx: i32)
        requires
            old(self).wf(),
            old(self).sliding < i32::MAX,
            dx == 1 || dx == -1,
        ensures
            final(self).wf(),
            *final(self) == if old(self).paused || old(self).phase == Phase::Over {
                *old(self)
            } else {
                shifted(*old(self), dx as int)
            },
    {
        if self.paused || self.phase == Phase::Over {
            return;
        }
        if let Some(p) = &self.current {
            let mut q = *p;
            let nx = self.x + dx;
            if near_exec(nx, self.y) && q.move_to(&self.board, nx, self.y) {
                if self.sliding != 0 {
                    self.sliding = self.sliding + 1;
                }
                self.x = nx;
                self.current = Some(q);
            }
        }
    }

    /// Turn the falling piece clockwise unless paused or over; a turn that does
    /// not fit leaves it as it was (see [`turned_current`]).
    pub fn rotate(&mut self)
        requires
            old(self).wf(),
        ensures
            final(self).wf(),
            *final(self) == if old(self).paused || old(self).phase == Phase::Over {
                *old(self)
            } else {
                turned_current(*old(self))
            },
    {
        if self.paused || self.phase == Phase::Over {
            return;
        }
        self.rotate_internal();
    }

    fn rotate_internal(&mut self)
        requires
            old(self).wf(),
        ensures
            final(self).wf(),
            *final(self) == turned_current(*old(self)),
    {
        if let Some(p) = &self.current {
            let mut q = *p;
            let ghost before = q;
            let r = q.rotate(&self.board, false);
            proof {
                lemma_turn_once(before, q, self.board, r);
                lemma_turn_keeps_boxes(before, q, self.board, r);
            }
            self.current = Some(q);
        }
    }

    fn engage_fast_drop(&mut self) -> (r: bool)
        ensures
            *final(self) == fast(*old(self)),
            r == engages(*old(self)),
    {
        if self.paused || self.in_bazaar || self.phase == Phase::Over {
            return false;
        }
        self.dropping = true;
        if self.drop_time == self.fast_drop_time {
            return false;
        }
        self.drop_time = self.fast_drop_time;
        self.drop_accum = 0;
        true
    }

    /// A player's hard drop: the fast drop engages and, when it engages anew,
    /// the rows between the piece and the bottom of the board are added to the
    /// score.
    pub fn begin_drop(&mut self)
        requires
            engages(*old(self)) ==> i64::MIN <= old(self).score.score + (BT_BOARD_HGT - old(self).y) <= i64::MAX,
            near(old(self).x as int, old(self).y as int),
        ensures
            *final(self) == if engages(*old(self)) {
                Engine {
                    score: Score { score: (old(self).score.score + (BT_BOARD_HGT - old(self).y)) as i64, ..old(self).score },
                    ..fast(*old(self))
                }
            } else {
                fast(*old(self))
            },
    {
        if self.engage_fast_drop() {
            self.score.score = self.score.score + (BT_BOARD_HGT - self.y) as i64;
        }
    }

    /// The computer's hard drop: the same fast drop, for a flat half board of
    /// score when it engages anew.
    pub fn ai_begin_drop(&mut self)
        requires
            engages(*old(self)) ==> old(self).score.score + BT_BOARD_HGT / 2 <= i64::MAX,
        ensures
            *final(self) == if engages(*old(self)) {
                Engine { score: Score { score: (old(self).score.score + BT_BOARD_HGT / 2) as i64, ..old(self).score }, ..fast(*old(self)) }
            } else {
                fast(*old(self))
            },
    {
        if self.engage_fast_drop() {
            self.score.score = self.score.score + (BT_BOARD_HGT / 2) as i64;
        }
    }

    /// Move the piece one row (or start the slide) and restart the drop timer,
    /// only while falling, not paused and not in the bazaar.
    pub fn soft_drop(&mut self)
        requires
            old(self).wf(),
        ensures
            final(self).wf(),
            *final(self) == if old(self).paused || old(self).in_bazaar || old(self).phase != Phase::Falling {
                *old(self)
            } else {
                Engine { drop_accum: 0, ..dropped(*old(self)) }
            },
    {
        if self.paused || self.in_bazaar || self.phase != Phase::Falling {
            return;
        }
        self.drop_step();
        self.drop_accum = 0;
    }

    fn slick_step(&mut self)
        requires
            old(self).wf(),
        ensures
            final(self).wf(),
            *final(self) == slicked_once(*old(self)),
    {
        if let Some(p) = &self.current {
            let mut q = *p;
            let dir = if self.slick_dir == 0 { self.left_x } else { self.right_x };
            let nx = self.x + dir;
            if near_exec(nx, self.y) && q.move_to(&self.board, nx, self.y) {
                self.x = nx;
                self.current = Some(q);
            } else {
                self.slick_dir = self.slick_dir ^ 1;
            }
        }
    }

    /// Run the weapon timers `dt` ms on (see [`weapons_ticked`]).
    fn tick_weapons(&mut self, dt: i32)
        requires
            old(self).wf(),
            dt > 0,
            old(self).on(WeaponToken::Hatter) ==> old(self).hatter_accum + dt <= i32::MAX,
            old(self).on(WeaponToken::Slick) && old(self).phase == Phase::Falling && !old(self).dropping
                ==> old(self).slick_accum + dt <= i32::MAX,
        ensures
            final(self).wf(),
            *final(self) == weapons_ticked(*old(self), dt as int),
            final(self).phase == old(self).phase,
            final(self).drop_accum == old(self).drop_accum,
            final(self).slide_accum == old(self).slide_accum,
            final(self).drop_time == old(self).drop_time,
            final(self).slide_time == old(self).slide_time,
    {
        let ghost e0 = *self;
        if self.weapons.is_active(WeaponToken::Hatter) {
            self.hatter_accum = self.hatter_accum + dt;
            let ghost target = hatted(*self);
            while self.hatter_accum >= 20
                invariant
                    self.wf(),
                    hatted(*self) == target,
                    self.phase == e0.phase,
                    self.dropping == e0.dropping,
                    self.weapons == e0.weapons,
                    self.slick_accum == e0.slick_accum,
                    self.drop_accum == e0.drop_accum,
                    self.slide_accum == e0.slide_accum,
                    self.drop_time == e0.drop_time,
                    self.slide_time == e0.slide_time,
                decreases self.hatter_accum,
            {
                self.hatter_accum = self.hatter_accum - 20;
                self.rotate_internal();
            }
        }
        let ghost h = *self;
        if self.weapons.is_active(WeaponToken::Slick) && self.phase == Phase::Falling && !self.dropping {
            self.slick_accum = self.slick_accum + dt;
            let ghost target = slicked(*self);
            while self.slick_accum >= 20
                invariant
                    self.wf(),
                    slicked(*self) == target,
                    self.phase == h.phase,
                    self.drop_accum == h.drop_accum,
                    self.slide_accum == h.slide_accum,
                    self.drop_time == h.drop_time,
                    self.slide_time == h.slide_time,
                decreases self.slick_accum,
            {
                self.slick_accum = self.slick_accum - 20;
                self.slick_step();
            }
        }
    }

    /// Run the clock `dt` ms on and report whether the slide ran out (see
    /// [`ticked`]); the host then places the piece with [`Engine::place`].
    pub fn tick(&mut self, dt: i32) -> (due: bool)
        requires
            old(self).wf(),
            tick_fits(*old(self), dt as int),
        ensures
            final(self).wf(),
            (*final(self), due) == ticked(*old(self), dt as int),
    {
        if self.paused || self.in_bazaar || self.phase == Phase::Over || dt <= 0 {
            return false;
        }
        self.tick_weapons(dt);
        match self.phase {
            Phase::Falling => {
                self.drop_accum = self.drop_accum + dt;
                let step: i32 = if self.drop_time >= 1 { self.drop_time } else { 1 };
                let ghost target = fallen(*self, step as int);
                while self.phase == Phase::Falling && self.drop_accum >= step
                    invariant
                        self.wf(),
                        step >= 1,
                        fallen(*self, step as int) == target,
                    decreases self.drop_accum,
                {
                    self.drop_accum = self.drop_accum - step;
                    self.drop_step();
                }
                false
            },
            Phase::Sliding => {
                let a = self.slide_accum + dt;
                let step: i32 = if self.slide_time >= 0 { self.slide_time } else { 0 };
                if step > 0 && a < step {
                    self.slide_accum = a;
                    false
                } else {
                    self.slide_accum = if step > 0 { a - step } else { a };
                    true
                }
            },
            Phase::Over => false,
        }
    }

    /// Weapon `t` from the opponent takes effect (see [`armed`]).
    fn apply_weapon_on(&mut self, t: WeaponToken)
        requires
            old(self).wf(),
            old(self).remaining@[token_index(t)] + duration_spec(t) <= i32::MAX,
            old(self).score.funds > i64::MIN,
        ensures
            final(self).wf(),
            armed(*final(self), *old(self), t),
            final(self).score.funds > i64::MIN,
    {
        let ghost o = *self;
        self.weapons.set(t, true);
        let i = t.index();
        self.remaining[i] = self.remaining[i] + weapon_duration(t) as i32;
        self.board.set_active(t, true);
        let ghost m = self.board;
        proof {
            assert forall|x: int, y: int| ((#[trigger] m.at(x, y)) matches Some(c) ==> 0 <= c.value() <= 255) by {
                assert(o.board.at(x, y) matches Some(c) ==> 0 <= c.value() <= 255);
            }
            assert forall|mid: Board| #[trigger] mid.walls_raised(&m) implies mid.tally_fits() by {
                assert forall|x: int, y: int| ((#[trigger] mid.at(x, y)) matches Some(c) ==> 0 <= c.value() <= 255) by {
                    assert(m.at(x, y) matches Some(c) ==> 0 <= c.value() <= 255);
                }
                lemma_standard_budget(mid);
            }
        }
        self.board.apply_weapon(t, &mut self.rng);
        proof {
            lemma_effect_keeps_values(self.board, m, t, o.rng@, self.rng@);
            assert(flag_set(m, o.board, t, true));
        }
        self.deck.push((t, true));
        match t {
            WeaponToken::Upbyside => {
                self.def_y = BT_BOARD_HGT - 4;
                self.delta_y = -1;
                self.left_x = 1;
                self.right_x = -1;
            },
            WeaponToken::Speedy => {
                self.base_drop_time = self.base_drop_time >> 1;
                if self.drop_time != self.fast_drop_time {
                    self.drop_time = if self.base_drop_time < 1 { 1 } else { self.base_drop_time };
                }
            },
            WeaponToken::Meadow => {
                self.fast_drop_time = self.fast_drop_time << 1;
                self.base_drop_time = self.base_drop_time << 1;
                if self.drop_time != self.fast_drop_time {
                    self.drop_time = self.base_drop_time;
                }
            },
            WeaponToken::Keating => {
                let stolen = self.score.funds;
                self.score.funds = 0;
                if stolen != 0 {
                    self.events.push(GameEvent::FundsStolen(stolen));
                }
            },
            WeaponToken::Reagan => {
                self.score.funds = -self.score.funds;
            },
            _ => {},
        }
        proof {
            assert(self.remaining@ =~= o.remaining@.update(token_index(t), (o.remaining@[token_index(t)] + duration_spec(t)) as i32));
        }
    }

    /// Weapon `t`'s duration ran out (see [`disarmed`]).
    fn apply_weapon_off(&mut self, t: WeaponToken)
        requires
            old(self).wf(),
        ensures
            final(self).wf(),
            disarmed(*final(self), *old(self), t),
    {
        let ghost o = *self;
        self.weapons.set(t, false);
        self.board.revert_weapon(t);
        let ghost m = self.board;
        proof {
            lemma_revert_keeps_values(m, o.board, t);
        }
        self.board.set_active(t, false);
        proof {
            assert(effect_reverted(m, o.board, t));
            assert forall|x: int, y: int| ((#[trigger] self.board.at(x, y)) matches Some(c) ==> 0 <= c.value() <= 255) by {
                assert(m.at(x, y) matches Some(c) ==> 0 <= c.value() <= 255);
            }
        }
        self.deck.push((t, false));
        match t {
            WeaponToken::Upbyside => {
                self.def_x = BT_DEFAULT_X;
                self.def_y = BT_DEFAULT_Y;
                self.delta_y = 1;
                self.left_x = -1;
                self.right_x = 1;
            },
            WeaponToken::Speedy => {
                self.base_drop_time = self.base_drop_time << 1;
            },
            WeaponToken::Meadow => {
                self.base_drop_time = self.base_drop_time >> 1;
                self.fast_drop_time = self.fast_drop_time >> 1;
            },
            _ => {},
        }
    }

    /// Switch weapon `t` off now if it is in effect, and zero its duration
    /// (see [`forced_off`]).
    pub fn force_weapon_off(&mut self, t: WeaponToken)
        requires
            old(self).wf(),
        ensures
            final(self).wf(),
            forced_off(*final(self), *old(self), t),
    {
        let ghost o = *self;
        if self.weapons.is_active(t) {
            self.apply_weapon_off(t);
        }
        let ghost m = *self;
        self.remaining[t.index()] = 0;
        proof {
            assert(self.remaining@ =~= m.remaining@.update(token_index(t), 0i32));
        }
    }

    /// Count the durations down by `lines` and switch off the weapons that ran
    /// out (see [`durations_counted`]).
    fn tick_durations(&mut self, lines: i32)
        requires
            old(self).wf(),
            lines >= 0,
        ensures
            final(self).wf(),
            durations_counted(*final(self), *old(self), lines as int),
            forall|i: int| 0 <= i < 34 ==> #[trigger] final(self).remaining@[i] <= old(self).remaining@[i],
            final(self).pending == old(self).pending,
            final(self).score == old(self).score,
    {
        let ghost o = *self;
        let expired = count_down(&mut self.remaining, lines);
        let ghost m = *self;
        proof {
            assert(counted(m, o, lines as int));
            assert forall|i: int| 0 <= i < 34 implies #[trigger] m.remaining@[i] >= 0 by {
                assert(o.remaining@[i] >= 0);
            }
            assert(expired@.take(0) =~= Seq::<WeaponToken>::empty());
            lemma_disarmed_none(m);
        }
        let mut k: usize = 0;
        while k < expired.len()
            invariant
                self.wf(),
                0 <= k <= expired@.len(),
                disarmed_all(*self, m, expired@.take(k as int)),
                self.remaining == m.remaining,
                self.pending == o.pending,
                self.score == o.score,
            decreases expired@.len() - k,
        {
            let t = expired[k];
            let ghost before = *self;
            self.apply_weapon_off(t);
            proof {
                lemma_disarmed_step(*self, before, m, expired@.take(k as int), t);
                assert(expired@.take(k as int).push(t) =~= expired@.take(k + 1));
            }
            k = k + 1;
        }
        proof {
            assert(expired@.take(expired@.len() as int) =~= expired@);
            assert forall|i: int| 0 <= i < 34 implies #[trigger] self.remaining@[i] <= o.remaining@[i] by {
                assert(o.remaining@[i] >= 0);
            }
        }
    }

    /// Recount the lines left until the bazaar (see [`bazaar_updated`]).
    fn update_bazaar(&mut self)
        requires
            i64::MIN <= old(self).score.lines + old(self).score.op_lines <= i64::MAX,
        ensures
            bazaar_updated(*final(self), *old(self)),
    {
        let (til, opens) = bazaar_countdown(self.score.lines, self.score.op_lines, self.lines_til_baz);
        if opens {
            self.in_bazaar = true;
            self.events.push(GameEvent::EnterBazaar);
        }
        self.lines_til_baz = til;
    }

    /// Apply the weapons received from the opponent, oldest first (see
    /// [`flushed`]).
    fn flush_pending(&mut self)
        requires
            old(self).wf(),
            loads_fit(*old(self)),
            old(self).score.funds > i64::MIN,
        ensures
            final(self).wf(),
            flushed(*final(self), *old(self)),
    {
        let ghost o = *self;
        let mut pend: Vec<WeaponToken> = Vec::new();
        std::mem::swap(&mut pend, &mut self.pending);
        let ghost start = *self;
        proof {
            assert(pend@.take(0) =~= Seq::<WeaponToken>::empty());
            assert(pend@.skip(0) =~= pend@);
            lemma_armed_none(start);
        }
        let mut k: usize = 0;
        while k < pend.len()
            invariant
                self.wf(),
                0 <= k <= pend@.len(),
                pend@ == o.pending@,
                start == (Engine { pending: start.pending, ..o }),
                start.pending@.len() == 0,
                armed_all(*self, start, pend@.take(k as int)),
                self.pending == start.pending,
                self.score.funds > i64::MIN,
                forall|i: int| 0 <= i < 34 ==> #[trigger] self.remaining@[i] + load(pend@.skip(k as int), token_at(i)) <= i32::MAX,
            decreases pend@.len() - k,
        {
            let t = pend[k];
            let ghost before = *self;
            proof {
                lemma_token_at_index(t);
                let s = pend@.skip(k as int);
                assert(s[0] == t);
                assert(s.drop_first() =~= pend@.skip(k + 1));
                assert(before.remaining@[token_index(t)] + load(s, token_at(token_index(t))) <= i32::MAX);
                lemma_load_nonneg(s.drop_first(), t);
            }
            self.apply_weapon_on(t);
            proof {
                lemma_armed_step(*self, before, start, pend@.take(k as int), t);
                assert(pend@.take(k as int).push(t) =~= pend@.take(k + 1));
                let s = pend@.skip(k as int);
                assert(s.drop_first() =~= pend@.skip(k + 1));
                assert forall|i: int| 0 <= i < 34 implies #[trigger] self.remaining@[i] + load(pend@.skip(k + 1), token_at(i)) <= i32::MAX by {
                    assert(before.remaining@[i] + load(s, token_at(i)) <= i32::MAX);
                    if i == token_index(t) {
                    } else {
                        lemma_token_at_index(t);
                    }
                }
            }
            k = k + 1;
        }
        proof {
            assert(pend@.take(pend@.len() as int) =~= pend@);
        }
    }

    /// Install a board waiting from Swap, if any (see [`installed`]).
    fn install_incoming_board(&mut self)
        requires
            old(self).wf(),
        ensures
            final(self).wf(),
            installed(*final(self), *old(self)),
            final(self).pending == old(self).pending,
            final(self).score == old(self).score,
            forall|i: int| 0 <= i < 34 ==> #[trigger] final(self).remaining@[i] <= old(self).remaining@[i],
    {
        let ghost o = *self;
        if let Some(cells) = self.incoming_board.take() {
            let ghost o1 = *self;
            assert(o1 == (Engine { incoming_board: None, ..o }));
            self.force_weapon_off(WeaponToken::Bottle);
            let ghost a = *self;
            self.force_weapon_off(WeaponToken::Upbyside);
            let ghost b = *self;
            import_board(&mut self.board, &cells);
            proof {
                if cells@.len() == 4 * b.board.grid().len() {
                    lemma_import_values(self.board, cells@);
                } else {
                    assert forall|x: int, y: int| ((#[trigger] self.board.at(x, y)) matches Some(c) ==> 0 <= c.value() <= 255) by {
                        assert(b.board.at(x, y) matches Some(c) ==> 0 <= c.value() <= 255);
                    }
                }
                assert(forced_off(a, Engine { incoming_board: None, ..o }, WeaponToken::Bottle));
                assert(forced_off(b, a, WeaponToken::Upbyside));
                assert forall|i: int| 0 <= i < 34 implies #[trigger] self.remaining@[i] <= o.remaining@[i] by {
                    assert(o.remaining@[i] >= 0);
                }
            }
        }
    }

    /// The slide ran out: if the piece still fits a row further (and the lock
    /// is not forced) it resumes falling and `None` comes back; otherwise it
    /// locks, full rows are cleared and counted, and the clear comes back for
    /// [`Engine::bank`] (see [`resumed`] and [`locked`]). Without a falling
    /// piece nothing happens.
    pub fn place(&mut self, force: bool) -> (r: Option<LineClear>)
        requires
            old(self).wf(),
            old(self).score.lines <= i64::MAX - 842,
        ensures
            final(self).wf(),
            old(self).current is None ==> r is None && *final(self) == *old(self),
            (old(self).current matches Some(p) ==> {
                let down = old(self).y + old(self).delta_y;
                if !force && near(old(self).x as int, down) && p.fits(&old(self).board, old(self).x as int, down) {
                    r is None && *final(self) == resumed(*old(self), p)
                } else {
                    r matches Some(c) && locked(*final(self), *old(self), p, c)
                }
            }),
    {
        let p = match &self.current {
            Some(p) => *p,
            None => {
                return None;
            },
        };
        let down = self.y + self.delta_y;
        let can_down = near_exec(self.x, down) && p.can_move_to(&self.board, self.x, down);
        if !can_down || force {
            let up = self.y - self.delta_y;
            if self.dropping && self.sliding <= 1 && !(near_exec(self.x, up) && p.can_move_to(&self.board, self.x, up)) {
                self.events.push(GameEvent::Airslide);
            }
            let ghost o = *self;
            let ghost before = self.board;
            let mut q = p;
            q.land(&mut self.board);
            let ghost l = self.board;
            proof {
                let mid = choose|mid: Board|
                    #[trigger] p.stamped_into(&mid, &before) && l.grid() == mid.grid() && l.idiot == (mid.idiot
                        || mid.bad_move_at(p.x as int, p.y as int)) && l.reason == if mid.bad_move_at(p.x as int, p.y as int) {
                        crate::constants::BT_BAD_MOVE
                    } else {
                        mid.reason
                    };
                assert(locked_in(p, &before, &l));
                assert forall|x: int, y: int| ((#[trigger] l.at(x, y)) matches Some(c) ==> 0 <= c.value() <= 255) by {
                    assert(l.at(x, y) == mid.at(x, y));
                    assert(mid.at(x, y) == p.stamp_at(&before, x, y));
                    assert(before.at(x, y) matches Some(c) ==> 0 <= c.value() <= 255);
                }
                lemma_standard_budget(l);
            }
            let clear = self.board.check_lines();
            self.score.lines = self.score.lines + clear.lines as i64;
            self.current = None;
            self.sliding = 0;
            proof {
                assert(locked_in(p, &before, &l) && self.board.lines_cleared(&l, clear));
            }
            Some(clear)
        } else {
            let mut q = p;
            self.y = down;
            q.x = self.x;
            q.y = down;
            self.current = Some(q);
            self.phase = Phase::Falling;
            self.drop_accum = 0;
            self.sliding = 0;
            None
        }
    }

    /// Bank a lock's funds (see [`booked`]).
    fn book(&mut self, clear: LineClear, kept: i64)
        requires
            old(self).wf(),
            i64::MIN <= clear.funds - kept <= i64::MAX,
            i64::MIN < old(self).score.funds + kept <= i64::MAX,
        ensures
            final(self).wf(),
            booked(*final(self), *old(self), clear, kept),
    {
        let ghost o = *self;
        let tax = clear.funds as i64 - kept;
        if tax != 0 {
            self.events.push(GameEvent::FundsStolen(tax));
        }
        self.score.funds = self.score.funds + kept;
        self.events.push(GameEvent::Locked { lines: clear.lines, value: clear.value, funds: clear.funds });
        let ghost b0 = self.board;
        if let Some(reason) = self.board.flush_idiot() {
            self.events.push(GameEvent::Idiot(reason));
        }
        proof {
            assert forall|x: int, y: int| ((#[trigger] self.board.at(x, y)) matches Some(c) ==> 0 <= c.value() <= 255) by {
                assert(b0.at(x, y) matches Some(c) ==> 0 <= c.value() <= 255);
            }
            assert(self.events@ =~= o.events@ + (if tax != 0 {
                seq![GameEvent::FundsStolen(tax as i64)]
            } else {
                Seq::empty()
            }) + seq![GameEvent::Locked { lines: clear.lines, value: clear.value, funds: clear.funds }] + (if o.board.idiot {
                seq![GameEvent::Idiot(o.board.reason)]
            } else {
                Seq::empty()
            }));
        }
    }

    /// Count the durations down and recount the bazaar for cleared lines
    /// (see [`lines_booked`]).
    fn book_lines(&mut self, lines: i32)
        requires
            old(self).wf(),
            0 <= lines,
            lines > 0 ==> i64::MIN <= old(self).score.lines + old(self).score.op_lines <= i64::MAX,
        ensures
            final(self).wf(),
            lines_booked(*final(self), *old(self), lines as int),
            final(self).pending == old(self).pending,
            final(self).score == old(self).score,
            forall|i: int| 0 <= i < 34 ==> #[trigger] final(self).remaining@[i] <= old(self).remaining@[i],
    {
        if lines > 0 {
            self.tick_durations(lines);
            let ghost m = *self;
            self.update_bazaar();
            proof {
                assert(bazaar_updated(*self, m));
            }
        }
    }

    /// Report the score for the opponent (see [`scored`]).
    fn report_score(&mut self)
        ensures
            scored(*final(self), *old(self)),
    {
        self.events.push(GameEvent::Scored { score: self.score.score, lines: self.score.lines, funds: self.score.funds });
    }

    /// Settle a lock after [`Engine::place`] cleared `clear`: `kept` is the
    /// part of its funds the player keeps (all of them, or what Mondale's tax
    /// leaves); then durations, bazaar, score report, a swapped board and the
    /// opponent's weapons follow (see [`banked`]). The host then spawns the
    /// next piece.
    pub fn bank(&mut self, clear: LineClear, kept: i64)
        requires
            old(self).wf(),
            0 <= clear.lines,
            i64::MIN <= clear.funds - kept <= i64::MAX,
            i64::MIN < old(self).score.funds + kept <= i64::MAX,
            clear.lines > 0 ==> i64::MIN <= old(self).score.lines + old(self).score.op_lines <= i64::MAX,
            loads_fit(*old(self)),
        ensures
            final(self).wf(),
            banked(*final(self), *old(self), clear, kept),
    {
        let ghost o = *self;
        self.book(clear, kept);
        let ghost a = *self;
        self.book_lines(clear.lines);
        let ghost b = *self;
        self.report_score();
        let ghost c = *self;
        self.install_incoming_board();
        let ghost d = *self;
        proof {
            assert forall|i: int| 0 <= i < 34 implies #[trigger] d.remaining@[i] + load(d.pending@, token_at(i)) <= i32::MAX by {
                assert(o.remaining@[i] + load(o.pending@, token_at(i)) <= i32::MAX);
                assert(d.remaining@[i] <= c.remaining@[i]);
                assert(b.remaining@[i] <= a.remaining@[i]);
            }
        }
        self.flush_pending();
        proof {
            assert(booked(a, o, clear, kept) && lines_booked(b, a, clear.lines as int) && scored(c, b) && installed(d, c)
                && flushed(*self, d));
        }
    }

    /// A weapon launched by the opponent arrives; it takes effect at the next
    /// lock.
    pub fn receive_weapon(&mut self, t: WeaponToken)
        ensures
            *final(self) == (Engine { pending: final(self).pending, ..*old(self) }),
            final(self).pending@ == old(self).pending@.push(t),
    {
        self.pending.push(t);
    }

    /// The opponent's score changed (see [`op_scored`]).
    pub fn receive_op_score(&mut self, op_score: i64, op_lines: i64, op_funds: i64)
        requires
            old(self).wf(),
            i64::MIN <= op_lines - old(self).score.op_lines <= i64::MAX,
            i64::MIN <= old(self).score.lines + op_lines <= i64::MAX,
        ensures
            final(self).wf(),
            op_scored(*final(self), *old(self), op_score, op_lines, op_funds),
    {
        let ghost o = *self;
        let old_op = self.score.op_lines;
        self.score.op_score = op_score;
        self.score.op_funds = op_funds;
        let ghost o1 = *self;
        assert(o1 == (Engine { score: Score { op_score, op_funds, ..o.score }, ..o }));
        let n: i64 = if self.weapons.is_active(WeaponToken::Lawyers) && op_lines - old_op > 0 { op_lines - old_op } else { 0 };
        let ghost mut bs: Seq<Board> = seq![self.board];
        let ghost mut ss: Seq<u64> = seq![self.rng@];
        let mut i: i64 = 0;
        while i < n
            invariant
                self.wf(),
                0 <= i <= n,
                insert_run(bs, ss),
                bs.len() == i + 1,
                bs[0] == o1.board,
                ss[0] == o1.rng@,
                *self == (Engine { board: bs.last(), rng: self.rng, ..o1 }),
                self.rng@ == ss.last(),
            decreases n - i,
        {
            let ghost b0 = self.board;
            let ghost s0 = self.rng@;
            self.board.insert_line(&mut self.rng);
            proof {
                lemma_effect_keeps_values(self.board, b0, WeaponToken::RiseUp, s0, self.rng@);
                let bs2 = bs.push(self.board);
                let ss2 = ss.push(self.rng@);
                assert forall|k: int| #![trigger ss2[k]] 0 <= k < bs2.len() - 1 implies garbage_inserted(bs2[k + 1], bs2[k], ss2[k], ss2[k + 1]) by {
                    if k < bs.len() - 1 {
                        assert(ss[k] == ss2[k]);
                        assert(garbage_inserted(bs[k + 1], bs[k], ss[k], ss[k + 1]));
                    }
                }
                bs = bs2;
                ss = ss2;
            }
            i = i + 1;
        }
        let ghost m = *self;
        proof {
            assert(lawyered(m, o1, n as int));
        }
        self.score.op_lines = op_lines;
        let ghost m2 = *self;
        assert(m2 == (Engine { score: Score { op_lines, ..m.score }, ..m }));
        self.update_bazaar();
        proof {
            assert(lawyer_lines(o, op_lines) == n as int);
            assert(o1 == mirrored(o, op_score, op_funds));
            assert(m2 == lines_mirrored(m, op_lines));
            assert(lawyered(m, mirrored(o, op_score, op_funds), lawyer_lines(o, op_lines)) && bazaar_updated(
                *self,
                lines_mirrored(m, op_lines),
            ));
        }
    }

    /// Credit (or debit, when negative) funds directly and report the score;
    /// nothing for zero.
    pub fn add_funds(&mut self, amount: i64)
        requires
            i64::MIN <= old(self).score.funds + amount <= i64::MAX,
        ensures
            amount == 0 ==> *final(self) == *old(self),
            amount != 0 ==> scored(*final(self), Engine { score: Score { funds: (old(self).score.funds + amount) as i64, ..old(self).score }, ..*old(self) }),
    {
        if amount == 0 {
            return;
        }
        self.score.funds = self.score.funds + amount;
        self.report_score();
    }

    /// Buy weapon `t` in the bazaar at its price (doubled under Carter): when
    /// in the bazaar with the funds and a slot for it, the price is paid and the
    /// weapon stacked; otherwise nothing changes.
    pub fn buy_weapon(&mut self, t: WeaponToken) -> (ok: bool)
        requires
            old(self).wf(),
        ensures
            final(self).wf(),
            ok == can_buy(old(self).arsenal.tokens(), old(self).arsenal.quantities(), old(self).score.funds as int, t, old(self).on(WeaponToken::Carter), old(self).in_bazaar),
            ok ==> final(self).score.funds == old(self).score.funds - cost(t, old(self).on(WeaponToken::Carter)),
            ok ==> (final(self).arsenal.tokens(), final(self).arsenal.quantities()) == stocked(old(self).arsenal.tokens(), old(self).arsenal.quantities(), t),
            !ok ==> *final(self) == *old(self),
            *final(self) == (Engine { arsenal: final(self).arsenal, score: Score { funds: final(self).score.funds, ..old(self).score }, ..*old(self) }),
    {
        let carter = self.weapons.is_active(WeaponToken::Carter);
        bazaar_buy(&mut self.arsenal, &mut self.score.funds, t, carter, self.in_bazaar)
    }

    /// Sell one weapon `t` back in the bazaar at its current price (doubled
    /// under Carter): when in the bazaar and holding one; otherwise nothing
    /// changes.
    pub fn sell_weapon(&mut self, t: WeaponToken) -> (ok: bool)
        requires
            old(self).wf(),
            old(self).score.funds <= i64::MAX - 2400,
        ensures
            final(self).wf(),
            ok == (old(self).in_bazaar && crate::arsenal::first_held(old(self).arsenal.tokens(), old(self).arsenal.quantities(), t, 0) < 10),
            ok ==> final(self).score.funds == old(self).score.funds + cost(t, old(self).on(WeaponToken::Carter)),
            ok ==> (final(self).arsenal.tokens(), final(self).arsenal.quantities()) == crate::arsenal::use_slot_spec(
                old(self).arsenal.tokens(),
                old(self).arsenal.quantities(),
                crate::arsenal::first_held(old(self).arsenal.tokens(), old(self).arsenal.quantities(), t, 0),
            ),
            !ok ==> final(self).score == old(self).score && final(self).arsenal.tokens() == old(self).arsenal.tokens()
                && final(self).arsenal.quantities() == old(self).arsenal.quantities(),
            *final(self) == (Engine { arsenal: final(self).arsenal, score: Score { funds: final(self).score.funds, ..old(self).score }, ..*old(self) }),
    {
        let carter = self.weapons.is_active(WeaponToken::Carter);
        bazaar_sell(&mut self.arsenal, &mut self.score.funds, t, carter, self.in_bazaar)
    }

    /// The bazaar price of `t`, doubled under Carter.
    pub fn bazaar_price(&self, t: WeaponToken) -> (p: i32)
        ensures
            p == cost(t, self.on(WeaponToken::Carter)),
    {
        price_of(t, self.weapons.is_active(WeaponToken::Carter)) as i32
    }

    /// Fire arsenal slot `slot` at the opponent, unless in the bazaar or over
    /// (see [`fired`]).
    pub fn launch_weapon(&mut self, slot: usize)
        requires
            old(self).wf(),
        ensures
            final(self).wf(),
            fired(*final(self), *old(self), slot as int),
    {
        let can_fire = !self.in_bazaar && self.phase != Phase::Over;
        if let Some(t) = fire_slot(&mut self.arsenal, slot, can_fire) {
            self.events.push(GameEvent::WeaponLaunched(t));
        }
    }

    /// Leave the bazaar and resume play.
    pub fn leave_bazaar(&mut self)
        ensures
            *final(self) == (Engine { in_bazaar: false, ..*old(self) }),
    {
        self.in_bazaar = false;
    }

    /// Lazy Susan: the two players trade arsenals.
    pub fn swap_arsenal_with(&mut self, other: &mut Engine)
        requires
            old(self).wf(),
            old(other).wf(),
        ensures
            final(self).wf(),
            final(other).wf(),
            *final(self) == (Engine { arsenal: old(other).arsenal, ..*old(self) }),
            *final(other) == (Engine { arsenal: old(self).arsenal, ..*old(other) }),
    {
        std::mem::swap(&mut self.arsenal, &mut other.arsenal);
    }

    /// Swap Meet at once: both players drop Bottle, then Upbyside, and the two
    /// grids trade places; all else stays with its player.
    pub fn swap_board_with(&mut self, other: &mut Engine)
        requires
            old(self).wf(),
            old(other).wf(),
        ensures
            final(self).wf(),
            final(other).wf(),
            boards_swapped(*final(self), *final(other), *old(self), *old(other)),
    {
        let ghost s0 = *self;
        let ghost t0 = *other;
        self.force_weapon_off(WeaponToken::Bottle);
        let ghost a = *self;
        other.force_weapon_off(WeaponToken::Bottle);
        let ghost b = *other;
        self.force_weapon_off(WeaponToken::Upbyside);
        let ghost c = *self;
        other.force_weapon_off(WeaponToken::Upbyside);
        let ghost d = *other;
        self.board.swap_cells(&mut other.board);
        proof {
            assert forall|x: int, y: int| ((#[trigger] self.board.at(x, y)) matches Some(v) ==> 0 <= v.value() <= 255) by {
                assert(d.board.at(x, y) matches Some(v) ==> 0 <= v.value() <= 255);
            }
            assert forall|x: int, y: int| ((#[trigger] other.board.at(x, y)) matches Some(v) ==> 0 <= v.value() <= 255) by {
                assert(c.board.at(x, y) matches Some(v) ==> 0 <= v.value() <= 255);
            }
            assert(forced_off(a, s0, WeaponToken::Bottle) && forced_off(b, t0, WeaponToken::Bottle) && forced_off(c, a, WeaponToken::Upbyside) && forced_off(d, b, WeaponToken::Upbyside));
        }
    }

    /// Swap Meet deferred: the grid in `cells` (wire words) replaces this
    /// player's grid at its next lock.
    pub fn queue_board_swap(&mut self, cells: Vec<i32>)
        requires
            old(self).wf(),
            cells@.len() == 4 * (BT_BOARD_WTH * BT_BOARD_HGT) ==> words_values_ok(cells@, BT_BOARD_WTH * BT_BOARD_HGT),
        ensures
            final(self).wf(),
            *final(self) == (Engine { incoming_board: Some(cells), ..*old(self) }),
    {
        self.incoming_board = Some(cells);
    }

    /// Mutable access to the board, for a relay, a sandbox or a test; what is
    /// written through it becomes this engine's board.
    pub fn board_mut(&mut self) -> (b: &mut Board)
        ensures
            *b == old(self).board,
            *final(self) == (Engine { board: *final(b), ..*old(self) }),
    {
        &mut self.board
    }

    /// Replace the grid with the one in `data` (wire words); words of another
    /// length leave it as it was.
    pub fn import_board(&mut self, data: &[i32])
        requires
            old(self).wf(),
            data@.len() == 4 * (BT_BOARD_WTH * BT_BOARD_HGT) ==> words_values_ok(data@, BT_BOARD_WTH * BT_BOARD_HGT),
        ensures
            final(self).wf(),
            *final(self) == (Engine { board: final(self).board, ..*old(self) }),
            imported(final(self).board, old(self).board, data@),
    {
        let ghost b = self.board;
        import_board(&mut self.board, data);
        proof {
            if data@.len() == 4 * b.grid().len() {
                lemma_import_values(self.board, data@);
            } else {
                assert forall|x: int, y: int| ((#[trigger] self.board.at(x, y)) matches Some(c) ==> 0 <= c.value() <= 255) by {
                    assert(b.at(x, y) matches Some(c) ==> 0 <= c.value() <= 255);
                }
            }
        }
    }

    /// Add one weapon `t` to the arsenal directly (no bazaar, no funds): it
    /// stacks onto the first slot that holds it, else into the first empty
    /// slot; false, changing nothing, when every slot holds another weapon.
    pub fn grant_weapon(&mut self, t: WeaponToken) -> (ok: bool)
        requires
            old(self).wf(),
            crate::arsenal::first_fit(old(self).arsenal.tokens(), t, 0) < 10 ==> old(self).arsenal.quantities()[crate::arsenal::first_fit(
                old(self).arsenal.tokens(),
                t,
                0,
            )] < u16::MAX,
        ensures
            final(self).wf(),
            ok == (crate::arsenal::first_fit(old(self).arsenal.tokens(), t, 0) < 10),
            ok ==> (final(self).arsenal.tokens(), final(self).arsenal.quantities()) == stocked(old(self).arsenal.tokens(), old(self).arsenal.quantities(), t),
            *final(self) == (Engine { arsenal: final(self).arsenal, ..*old(self) }),
            !ok ==> *final(self) == *old(self),
    {
        self.arsenal.buy(t)
    }

    /// The engine as a keyframe, with the piece supply's state (the bit
    /// patterns of its keep-probabilities, its happy-face counter, broken flag
    /// and last piece) as given.
    pub fn keyframe(&self, keep_bits: [u64; 19], hap_on: i32, broken: bool, old_piece: i32) -> (k: Keyframe)
        requires
            self.wf(),
        ensures
            holds(k, *self),
            k.keep_bits == keep_bits,
            k.hap_on == hap_on,
            k.broken == broken,
            k.old_piece == old_piece,
    {
        let phase: i32 = match self.phase {
            Phase::Falling => 0,
            Phase::Sliding => 1,
            Phase::Over => 2,
        };
        let frame: [i32; 22] = [
            self.x,
            self.y,
            self.def_x,
            self.def_y,
            self.delta_y,
            self.left_x,
            self.right_x,
            self.base_drop_time,
            self.fast_drop_time,
            self.drop_time,
            self.slide_time,
            if self.dropping { 1 } else { 0 },
            self.sliding,
            phase,
            self.drop_accum,
            self.slide_accum,
            if self.paused { 1 } else { 0 },
            self.hatter_accum,
            self.slick_accum,
            self.slick_dir,
            if self.in_bazaar { 1 } else { 0 },
            self.lines_til_baz,
        ];
        let words = export_arsenal(&self.arsenal);
        proof {
            assert(words@.len() == 20);
        }
        let mut arsenal = [0i32; 20];
        let mut i: usize = 0;
        while i < 20
            invariant
                0 <= i <= 20,
                words@.len() == 20,
                forall|j: int| 0 <= j < i ==> #[trigger] arsenal@[j] == words@[j],
            decreases 20 - i,
        {
            arsenal[i] = words[i];
            i = i + 1;
        }
        let k = Keyframe {
            frame,
            score: self.score,
            rng: self.rng.raw(),
            keep_bits,
            hap_on,
            broken,
            old_piece,
            counts: self.weapons.raw(),
            remaining: self.remaining,
            arsenal,
            piece: self.current,
            pending: self.pending.clone(),
            board: export_board(&self.board),
            board_active: self.board.active.raw(),
            board_upside: self.board.upside,
            board_computer: self.board.computer,
            board_idiot: self.board.idiot,
            board_reason: self.board.reason,
        };
        proof {
            assert(k.frame@ =~= frame_of(*self));
            assert(k.arsenal@ =~= arsenal_words(self.arsenal.tokens(), self.arsenal.quantities()));
        }
        k
    }

    /// Take up the keyframe in `data`: when the words are well formed and the
    /// keyframe they hold is one an engine can take up (see [`restorable`]),
    /// every field is restored (see [`restored`]) and the piece supply's state
    /// comes back for the host; otherwise nothing changes and `None` comes
    /// back.
    pub fn restore(&mut self, data: &[i64]) -> (r: Option<([u64; 19], i32, bool, i32)>)
        requires
            old(self).wf(),
        ensures
            final(self).wf(),
            r is None ==> *final(self) == *old(self),
            r is None ==> (well_formed(data@, 4 * (BT_BOARD_WTH * BT_BOARD_HGT)) ==> forall|k: Keyframe|
                #[trigger] k.read_from(data@, 4 * (BT_BOARD_WTH * BT_BOARD_HGT)) ==> !restorable(k)),
            r is Some ==> well_formed(data@, 4 * (BT_BOARD_WTH * BT_BOARD_HGT)),
            r matches Some(sup) ==> exists|k: Keyframe|
                #[trigger] k.read_from(data@, 4 * (BT_BOARD_WTH * BT_BOARD_HGT)) && restorable(k) && restored(*final(self), *old(self), k)
                    && sup == (k.keep_bits, k.hap_on, k.broken, k.old_piece),
    {
        let k = match Keyframe::decode(data, 1120) {
            Some(k) => k,
            None => {
                return None;
            },
        };
        if !keyframe_ok(&k) {
            proof {
                assert forall|k2: Keyframe| #[trigger] k2.read_from(data@, 1120) implies !restorable(k2) by {
                    assert(k2.frame@ == k.frame@);
                    assert(k2.remaining@ == k.remaining@);
                    assert(k2.board@ == k.board@);
                    if data@[140] != 0 {
                        let p = k.piece.unwrap();
                        let p2 = k2.piece.unwrap();
                        assert(p2.x == p.x && p2.y == p.y && p2.rot == p.rot && p2.orientation == p.orientation);
                        assert(p2.orientations == p.orientations && p2.state == p.state);
                        assert forall|i: int, j: int| 0 <= i < 8 && 0 <= j < 8 implies #[trigger] p2.cells[i][j] == p.cells[i][j] by {
                            assert(p2.cells[i][j] == decode_spec(crate::keyframe::square_words(data@, i, j)));
                            assert(p.cells[i][j] == decode_spec(crate::keyframe::square_words(data@, i, j)));
                        }
                        assert(p2.turnable() == p.turnable());
                        if boxes_ok(p) {
                            assert forall|i: int, j: int| 0 <= i < 8 && 0 <= j < 8 implies (#[trigger] p2.cells[i][j] matches Some(c) ==> 0 <= c.value() <= 255) by {
                                assert(p2.cells[i][j] == p.cells[i][j]);
                            }
                        }
                        if boxes_ok(p2) {
                            assert forall|i: int, j: int| 0 <= i < 8 && 0 <= j < 8 implies (#[trigger] p.cells[i][j] matches Some(c) ==> 0 <= c.value() <= 255) by {
                                assert(p2.cells[i][j] == p.cells[i][j]);
                            }
                        }
                    } else {
                        assert(k2.piece is None && k.piece is None);
                    }
                    assert(restorable(k2) == restorable(k));
                }
            }
            return None;
        }
        let ghost o = *self;
        let f = k.frame;
        self.x = f[0];
        self.y = f[1];
        self.def_x = f[2];
        self.def_y = f[3];
        self.delta_y = f[4];
        self.left_x = f[5];
        self.right_x = f[6];
        self.base_drop_time = f[7];
        self.fast_drop_time = f[8];
        self.drop_time = f[9];
        self.slide_time = f[10];
        self.dropping = f[11] != 0;
        self.sliding = f[12];
        self.phase = if f[13] == 0 {
            Phase::Falling
        } else if f[13] == 1 {
            Phase::Sliding
        } else {
            Phase::Over
        };
        self.drop_accum = f[14];
        self.slide_accum = f[15];
        self.paused = f[16] != 0;
        self.hatter_accum = f[17];
        self.slick_accum = f[18];
        self.slick_dir = f[19];
        self.in_bazaar = f[20] != 0;
        self.lines_til_baz = f[21];
        self.score = k.score;
        self.rng = Rng::from_raw(k.rng);
        self.weapons.set_raw(k.counts);
        self.remaining = k.remaining;
        import_arsenal(&mut self.arsenal, &k.arsenal);
        let ghost b0 = self.board;
        import_board(&mut self.board, &k.board);
        self.board.active.set_raw(k.board_active);
        self.board.upside = k.board_upside;
        self.board.computer = k.board_computer;
        self.board.idiot = k.board_idiot;
        self.board.reason = k.board_reason;
        self.current = k.piece;
        self.pending = k.pending;
        self.events = Vec::new();
        self.deck = Vec::new();
        proof {
            lemma_import_values(self.board, k.board@);
        }
        Some((k.keep_bits, k.hap_on, k.broken, k.old_piece))
    }

    /// Pause or resume the clock.
    pub fn set_paused(&mut self, paused: bool)
        ensures
            *final(self) == (Engine { paused, ..*old(self) }),
    {
        self.paused = paused;
    }
}

} // verus!
