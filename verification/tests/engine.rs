use battletris::board::Board;
use battletris::cell::Cell;
use battletris::engine::{Engine, Phase};
use battletris::exchange::export_board;
use battletris::game::GameEvent;
use battletris::piece::{Piece, PieceKind};
use battletris::weapons::{weapon_table, WeaponToken};

const KINDS: [PieceKind; 7] = [
    PieceKind::El,
    PieceKind::RevEl,
    PieceKind::SlideRight,
    PieceKind::SlideLeft,
    PieceKind::Long,
    PieceKind::Plug,
    PieceKind::Box,
];

/// A test host: the engine fed by a fixed cycle of pieces, keeping all funds.
#[derive(Clone)]
struct Host {
    e: Engine,
    n: usize,
}

impl Host {
    fn new(seed: u64) -> Host {
        let mut h = Host { e: Engine::new(seed), n: 0 };
        h.spawn();
        h
    }

    fn spawn(&mut self) {
        self.e.deck.clear();
        let p = Piece::construct(KINDS[self.n % KINDS.len()], self.e.def_x, self.e.def_y, 1);
        self.n += 1;
        self.e.spawn(p);
    }

    fn tick(&mut self, dt: i32) {
        if self.e.tick(dt) {
            self.place(false);
        }
    }

    fn place(&mut self, force: bool) {
        if let Some(c) = self.e.place(force) {
            let kept = c.funds as i64;
            self.e.bank(c, kept);
            self.spawn();
        }
    }

    fn snapshot(&self) -> Vec<i64> {
        self.e.keyframe([0; 19], 0, false, self.n as i32).encode()
    }

    fn restore(&mut self, data: &[i64]) -> bool {
        match self.e.restore(data) {
            Some((_, _, _, n)) => {
                self.n = n as usize;
                true
            }
            None => false,
        }
    }

    /// Hard-drop the falling piece and run the clock until it locks.
    fn lock_now(&mut self) {
        self.e.begin_drop();
        for _ in 0..1000 {
            self.tick(10);
            if self.e.events.iter().any(|ev| matches!(ev, GameEvent::Locked { .. })) {
                self.e.events.clear();
                return;
            }
        }
        panic!("the piece never locked");
    }

    fn take_events(&mut self) -> Vec<GameEvent> {
        std::mem::take(&mut self.e.events)
    }
}

#[test]
fn a_piece_that_can_still_fall_resumes_falling_not_locks_midair() {
    let mut g = Host::new(1);
    let y0 = g.e.y;
    let kind = g.e.current.unwrap().kind;
    g.e.phase = Phase::Sliding;
    g.e.sliding = 1;
    assert!(g.e.current.unwrap().can_move_to(&g.e.board, g.e.x, g.e.y + g.e.delta_y));
    g.place(false);
    assert_eq!(g.e.phase, Phase::Falling, "it resumed falling");
    assert_eq!(g.e.y, y0 + g.e.delta_y, "gravity moved it down a row");
    assert_eq!(g.e.current.map(|p| p.kind), Some(kind), "same piece still in play");
    let p = g.e.current.unwrap();
    assert_eq!((g.e.x, g.e.y), (p.x, p.y), "game and piece positions stay synced");
}

#[test]
fn begin_drop_is_ignored_in_the_bazaar() {
    let mut g = Host::new(1);
    assert!(g.e.current.is_some());
    assert!(!g.e.dropping);
    g.e.in_bazaar = true;
    g.e.begin_drop();
    assert!(!g.e.dropping, "begin_drop must be a no-op while the bazaar is open");
    g.e.in_bazaar = false;
    g.e.begin_drop();
    assert!(g.e.dropping, "begin_drop should engage once the bazaar closes");
}

#[test]
fn soft_drop_is_ignored_in_the_bazaar() {
    let mut g = Host::new(1);
    let y0 = g.e.y;
    g.e.in_bazaar = true;
    g.e.soft_drop();
    assert_eq!(g.e.y, y0, "soft_drop must not advance the piece in the bazaar");
}

#[test]
fn tick_is_frozen_in_the_bazaar() {
    let mut g = Host::new(1);
    g.e.in_bazaar = true;
    let y0 = g.e.y;
    let score0 = g.e.score.score;
    for _ in 0..200 {
        g.tick(16);
    }
    assert_eq!(g.e.y, y0, "the piece must not fall while frozen");
    assert_eq!(g.e.score.score, score0, "score must not change while frozen");
    assert!(g.take_events().is_empty(), "no events while frozen");
}

#[test]
fn keyframe_round_trips_exactly() {
    let mut g = Host::new(0xBEEF);
    for i in 0..200 {
        match i {
            50 => g.e.move_left(),
            70 => g.e.rotate(),
            90 => g.e.begin_drop(),
            120 => g.e.receive_weapon(WeaponToken::Bottle),
            _ => {}
        }
        g.tick(16);
    }
    let snap = g.snapshot();
    let mut h = Host::new(1);
    assert!(h.restore(&snap), "restore accepts a valid keyframe");
    assert_eq!(h.snapshot(), snap, "the restored game re-serializes identically");
}

#[test]
fn keyframe_enables_deterministic_continuation() {
    let mut a = Host::new(0x1234);
    for i in 0..200 {
        match i {
            40 => a.e.receive_weapon(WeaponToken::Upbyside),
            80 => a.e.begin_drop(),
            110 => a.e.receive_weapon(WeaponToken::RiseUp),
            150 => a.e.begin_drop(),
            _ => {}
        }
        a.tick(16);
    }
    let mut b = Host::new(0x9999);
    assert!(b.restore(&a.snapshot()));
    for i in 0..300 {
        match i {
            30 => {
                a.e.move_left();
                b.e.move_left();
            }
            60 => {
                a.e.rotate();
                b.e.rotate();
            }
            100 => {
                a.e.begin_drop();
                b.e.begin_drop();
            }
            _ => {}
        }
        a.tick(16);
        b.tick(16);
    }
    assert_eq!(a.snapshot(), b.snapshot(), "continuation from a keyframe is deterministic");
}

#[test]
fn restore_rejects_malformed_keyframes_without_mutating() {
    let good = Host::new(7).snapshot();
    let mut g = Host::new(7);
    let before = g.snapshot();
    assert!(!g.restore(&[]), "empty rejected");
    assert!(!g.restore(&good[..good.len() - 1]), "truncated rejected");
    let mut wrong_ver = good.clone();
    wrong_ver[0] = 999;
    assert!(!g.restore(&wrong_ver), "wrong version rejected");
    let mut trailing = good.clone();
    trailing.push(123);
    assert!(!g.restore(&trailing), "trailing garbage rejected");
    assert_eq!(g.snapshot(), before, "self is untouched after every rejected restore");
}

#[test]
fn a_keyframe_no_game_reaches_is_refused() {
    let mut g = Host::new(3);
    let mut bad = g.snapshot();
    bad[1 + 4] = 7;
    let before = g.snapshot();
    assert!(!g.restore(&bad), "a fall direction other than one row is refused");
    assert_eq!(g.snapshot(), before);
}

#[test]
fn a_new_engine_spawns_at_the_centre() {
    let g = Host::new(5);
    let p = g.e.current.unwrap();
    assert_eq!(p.kind, PieceKind::El);
    assert_eq!((g.e.x, g.e.y), (5 - 3 / 2, 0));
    assert_eq!((p.x, p.y), (g.e.x, g.e.y));
    assert_eq!(g.e.phase, Phase::Falling);
    assert_eq!(g.e.drop_time, 512);
}

#[test]
fn the_drop_timer_moves_the_piece_one_row_per_interval() {
    let mut g = Host::new(5);
    g.tick(511);
    assert_eq!(g.e.y, 0);
    g.tick(1);
    assert_eq!(g.e.y, 1);
    assert_eq!(g.e.drop_accum, 0);
    g.tick(512 * 3 + 7);
    assert_eq!(g.e.y, 4);
    assert_eq!(g.e.drop_accum, 7);
}

#[test]
fn a_fast_drop_lands_and_locks_and_spawns_the_next_piece() {
    let mut g = Host::new(5);
    g.e.begin_drop();
    assert_eq!(g.e.score.score, 28, "the hard-drop bonus is the rows still to fall");
    assert_eq!(g.e.drop_time, 10);
    let mut locked = false;
    for _ in 0..200 {
        g.tick(10);
        if g.take_events().iter().any(|ev| matches!(ev, GameEvent::Locked { .. })) {
            locked = true;
            break;
        }
    }
    assert!(locked, "the piece locked");
    assert_eq!(g.e.current.unwrap().kind, PieceKind::RevEl, "the next piece came in");
    assert!(!g.e.dropping);
    assert!((0..10).any(|x| g.e.board.get(x, 27).is_some()), "the first piece rests on the floor");
}

#[test]
fn the_computer_drop_earns_a_flat_half_board() {
    let mut g = Host::new(5);
    g.e.ai_begin_drop();
    assert_eq!(g.e.score.score, 14);
    g.e.ai_begin_drop();
    assert_eq!(g.e.score.score, 14, "a second request while fast-dropping earns nothing");
}

#[test]
fn no_slide_locks_at_once() {
    let mut g = Host::new(5);
    g.e.receive_weapon(WeaponToken::NoSlide);
    g.e.begin_drop();
    for _ in 0..100 {
        g.tick(10);
    }
    assert!(g.e.weapons.is_active(WeaponToken::NoSlide));
    assert_eq!(g.e.remaining[WeaponToken::NoSlide.index()], battletris::weapons::weapon_duration(WeaponToken::NoSlide) as i32);
    assert_eq!(g.e.deck.len(), 0, "the test host follows the deck at every spawn");
}

#[test]
fn keating_seizes_the_funds_for_the_attacker() {
    let mut g = Host::new(5);
    g.e.score.funds = 500;
    g.e.receive_weapon(WeaponToken::Keating);
    g.e.begin_drop();
    let mut stolen = false;
    for _ in 0..1000 {
        g.tick(10);
        if g.take_events().contains(&GameEvent::FundsStolen(500)) {
            stolen = true;
            break;
        }
    }
    assert!(stolen, "the seized funds are reported for the attacker");
    assert_eq!(g.e.score.funds, 0);
}

#[test]
fn reagan_negates_the_funds() {
    let mut g = Host::new(5);
    g.e.score.funds = 300;
    g.e.receive_weapon(WeaponToken::Reagan);
    g.lock_now();
    assert_eq!(g.e.score.funds, -300);
}

#[test]
fn the_kept_funds_are_banked_and_the_tax_reported() {
    let mut g = Host::new(5);
    let c = battletris::board::LineClear { lines: 1, value: 10, funds: 10 };
    g.e.bank(c, 7);
    assert_eq!(g.e.score.funds, 7);
    let ev = g.take_events();
    assert_eq!(ev[0], GameEvent::FundsStolen(3));
    assert_eq!(ev[1], GameEvent::Locked { lines: 1, value: 10, funds: 10 });
    assert!(matches!(ev.last(), Some(GameEvent::Scored { funds: 7, .. })));
}

#[test]
fn upbyside_flips_the_spawn_point_and_the_moves() {
    let mut g = Host::new(5);
    g.e.receive_weapon(WeaponToken::Upbyside);
    g.lock_now();
    assert_eq!(g.e.def_y, 24);
    assert_eq!(g.e.delta_y, -1);
    assert_eq!((g.e.left_x, g.e.right_x), (1, -1));
    assert_eq!(g.e.y, 24, "the next piece enters at the flipped spawn row");
    assert_eq!(g.e.deck.len(), 0);
}

#[test]
fn speedy_halves_and_meadow_doubles_the_drop_interval() {
    let mut g = Host::new(5);
    g.e.receive_weapon(WeaponToken::Speedy);
    g.lock_now();
    assert_eq!(g.e.base_drop_time, 256);
    assert_eq!(g.e.drop_time, 256, "the next piece falls at the halved interval");
    g.e.receive_weapon(WeaponToken::Meadow);
    g.lock_now();
    assert_eq!(g.e.base_drop_time, 512);
    assert_eq!(g.e.fast_drop_time, 20);
}

#[test]
fn twenty_combined_lines_open_the_bazaar() {
    let mut g = Host::new(5);
    g.e.receive_op_score(0, 19, 0);
    assert!(!g.e.in_bazaar);
    assert_eq!(g.e.lines_til_baz, 1);
    g.e.receive_op_score(0, 20, 0);
    assert!(g.e.in_bazaar);
    assert_eq!(g.e.lines_til_baz, 20);
    assert!(g.take_events().contains(&GameEvent::EnterBazaar));
    g.e.leave_bazaar();
    assert!(!g.e.in_bazaar);
}

#[test]
fn lawyers_raise_a_line_per_opponent_line() {
    let mut g = Host::new(5);
    g.e.receive_weapon(WeaponToken::Lawyers);
    g.lock_now();
    assert!(g.e.weapons.is_active(WeaponToken::Lawyers));
    g.e.receive_op_score(0, 2, 0);
    for y in 26..28 {
        assert_eq!((0..10).filter(|&x| g.e.board.get(x, y).is_some()).count(), 9, "a garbage line has one hole");
    }
    assert_eq!(g.e.score.op_lines, 2);
    g.e.receive_op_score(0, 2, 0);
    assert_eq!((0..10).filter(|&x| g.e.board.get(x, 25).is_some()).count() < 9, true, "no new line, no garbage");
}

#[test]
fn a_duration_runs_out_with_cleared_lines() {
    let mut g = Host::new(5);
    g.e.receive_weapon(WeaponToken::NoSlide);
    g.lock_now();
    let d = g.e.remaining[WeaponToken::NoSlide.index()];
    assert!(d > 0);
    let c = battletris::board::LineClear { lines: d, value: 0, funds: 0 };
    g.e.bank(c, 0);
    assert_eq!(g.e.remaining[WeaponToken::NoSlide.index()], 0);
    assert!(!g.e.weapons.is_active(WeaponToken::NoSlide));
    assert_eq!(g.e.deck, vec![(WeaponToken::NoSlide, false)]);
}

#[test]
fn swap_meet_trades_the_grids() {
    let mut a = Host::new(5);
    let mut b = Host::new(6);
    a.lock_now();
    let a_grid = a.e.board.cells.clone();
    let b_grid = b.e.board.cells.clone();
    a.e.swap_board_with(&mut b.e);
    assert_eq!(a.e.board.cells, b_grid);
    assert_eq!(b.e.board.cells, a_grid);
}

#[test]
fn a_launch_fires_the_slot_and_reports_it() {
    let mut g = Host::new(5);
    assert!(g.e.grant_weapon(WeaponToken::Gimp));
    g.e.launch_weapon(0);
    assert_eq!(g.take_events(), vec![GameEvent::WeaponLaunched(WeaponToken::Gimp)]);
    assert_eq!(g.e.arsenal.token(0), None);
    g.e.launch_weapon(0);
    assert!(g.take_events().is_empty(), "an empty slot fires nothing");
}

#[test]
fn the_computer_steers_to_its_placement_and_drops() {
    let mut g = Host::new(5);
    let c = battletris::ai::Computer::new();
    c.steer(&mut g.e, battletris::ai::Placement { x: 0, orientation: 1 });
    let p = g.e.current.unwrap();
    assert_eq!(p.orientation, 1);
    assert_eq!(p.x, 0);
    assert_eq!(g.e.x, 0);
    assert!(g.e.dropping);
    assert_eq!(g.e.score.score, 14);
}

#[test]
fn the_computer_does_nothing_once_over() {
    let mut g = Host::new(5);
    g.e.phase = Phase::Over;
    let before = g.snapshot();
    battletris::ai::Computer::new().steer(&mut g.e, battletris::ai::Placement { x: 0, orientation: 1 });
    assert_eq!(g.snapshot(), before);
}

/// Clear exactly one line: the grid becomes a single full floor row, and the
/// falling piece locks on top of it.
fn clear_a_line(g: &mut Host) {
    if g.e.in_bazaar {
        g.e.leave_bazaar();
    }
    let mut b = Board::standard(false);
    for x in 0..b.width {
        b.set(x, b.height - 1, Some(Cell::color(1)));
    }
    g.e.import_board(&export_board(&b));
    g.lock_now();
    if g.e.in_bazaar {
        g.e.leave_bazaar();
    }
}

#[test]
fn timed_weapons_expire_after_their_duration_in_lines() {
    for (seed, weapon) in [(2024u64, WeaponToken::Speedy), (99, WeaponToken::SoLong), (7, WeaponToken::Carter)] {
        let duration = weapon_table()[weapon.index()].duration as i64;
        let mut g = Host::new(seed);
        g.e.receive_weapon(weapon);
        g.lock_now();
        assert!(g.e.board.active.is_active(weapon), "{weapon:?} should flush in at the next lock");
        let base = g.e.score.lines;
        let mut saw_active = false;
        let mut saw_expiry = false;
        for _ in 0..200 {
            if g.e.phase == Phase::Over {
                break;
            }
            let cleared = g.e.score.lines - base;
            let active = g.e.board.active.is_active(weapon);
            assert_eq!(active, cleared < duration, "{weapon:?}: active={active} after {cleared}/{duration} lines");
            saw_active |= active;
            if !active {
                saw_expiry = true;
                break;
            }
            clear_a_line(&mut g);
        }
        assert!(saw_active, "{weapon:?} should be observed active");
        assert!(saw_expiry, "{weapon:?} should be observed expiring");
    }
}

#[test]
fn carter_price_doubling_reverts_on_expiry() {
    let mut g = Host::new(7);
    let probe = WeaponToken::Speedy;
    let base_price = g.e.bazaar_price(probe);
    g.e.receive_weapon(WeaponToken::Carter);
    g.lock_now();
    assert!(g.e.board.active.is_active(WeaponToken::Carter));
    let base = g.e.score.lines;
    assert_eq!(g.e.bazaar_price(probe), base_price * 2, "doubled while Carter is active");
    let duration = weapon_table()[WeaponToken::Carter.index()].duration as i64;
    let mut expired = false;
    for _ in 0..200 {
        if !g.e.board.active.is_active(WeaponToken::Carter) {
            expired = true;
            break;
        }
        clear_a_line(&mut g);
    }
    assert!(expired, "Carter should expire");
    assert!(g.e.score.lines - base >= duration, "expired only after its duration in lines");
    assert_eq!(g.e.bazaar_price(probe), base_price, "price snaps back to normal once Carter expires");
}

#[test]
fn a_write_through_board_mut_lands_on_the_engine_board() {
    let mut g = Host::new(3);
    g.e.board_mut().set(4, 20, Some(Cell::color(2)));
    assert_eq!(g.e.board.get(4, 20), Some(Cell::color(2)));
}
