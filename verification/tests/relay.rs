use battletris::cell::Cell;
use battletris::engine::{Engine, Phase};
use battletris::exchange::export_board;
use battletris::game::GameEvent;
use battletris::piece::{Piece, PieceKind};
use battletris::versus::{deliver_weapon, Relay, RelayEvent, Side};
use battletris::weapons::WeaponToken;

/// An engine fed by a fixed cycle of pieces, keeping all funds.
struct Host {
    e: Engine,
    n: usize,
}

const KINDS: [PieceKind; 4] = [PieceKind::El, PieceKind::Long, PieceKind::Box, PieceKind::Plug];

impl Host {
    fn new(seed: u64) -> Host {
        let mut h = Host { e: Engine::new(seed), n: 0 };
        h.spawn();
        h
    }

    fn spawn(&mut self) {
        self.e.deck.clear();
        let p = Piece::construct(KINDS[self.n % KINDS.len()], self.e.def_x, self.e.def_y, 1);
        self.n += 1;
        self.e.spawn(p);
    }

    fn tick(&mut self, dt: i32) {
        if self.e.tick(dt) {
            if let Some(c) = self.e.place(false) {
                let kept = c.funds as i64;
                self.e.bank(c, kept);
                self.spawn();
            }
        }
    }

    /// Hard-drop and run the clock until the piece locks (or the game ends).
    fn lock(&mut self) {
        self.e.begin_drop();
        for _ in 0..400 {
            self.tick(16);
            if self.e.phase == Phase::Over
                || std::mem::take(&mut self.e.events).iter().any(|ev| matches!(ev, GameEvent::Locked { .. }))
            {
                return;
            }
        }
    }

    fn cells(&self) -> usize {
        let b = &self.e.board;
        (0..b.height).flat_map(|y| (0..b.width).map(move |x| (x, y))).filter(|&(x, y)| b.get(x, y).is_some()).count()
    }
}

/// Two engines ticked in lockstep with the library's relay between them.
struct Match {
    a: Host,
    b: Host,
    relay: Relay,
}

impl Match {
    fn new(seed_a: u64, seed_b: u64) -> Match {
        Match { a: Host::new(seed_a), b: Host::new(seed_b), relay: Relay::new() }
    }

    fn side(&mut self, s: Side) -> &mut Host {
        match s {
            Side::A => &mut self.a,
            Side::B => &mut self.b,
        }
    }

    fn tick(&mut self, dt: i32) {
        if self.relay.result != 0 {
            return;
        }
        if !(self.a.e.in_bazaar || self.b.e.in_bazaar) {
            self.a.tick(dt);
            self.b.tick(dt);
        }
        for s in [Side::A, Side::B] {
            let (me, them) = match s {
                Side::A => (&mut self.a, &mut self.b),
                Side::B => (&mut self.b, &mut self.a),
            };
            for ev in std::mem::take(&mut me.e.events) {
                self.relay.relay_event(s, ev, &mut me.e, &mut them.e);
            }
        }
    }

    fn take_dirty(&mut self) -> bool {
        std::mem::take(&mut self.relay.dirty)
    }
}

#[test]
fn deliver_weapon_hits_the_opponent_when_uncursed() {
    let mut atk = Host::new(1);
    let mut vic = Host::new(2);
    deliver_weapon(&mut atk.e, &mut vic.e, WeaponToken::RiseUp);
    vic.lock();
    assert!(vic.cells() >= 9, "RiseUp landed on the victim");
    assert_eq!(atk.cells(), 0, "attacker untouched");
}

#[test]
fn deliver_weapon_backfires_when_the_launcher_is_cursed() {
    let mut atk = Host::new(1);
    let mut vic = Host::new(2);
    deliver_weapon(&mut vic.e, &mut atk.e, WeaponToken::Mirror);
    atk.lock();
    assert!(atk.e.weapons.is_active(WeaponToken::Mirror));

    deliver_weapon(&mut atk.e, &mut vic.e, WeaponToken::RiseUp);
    atk.lock();
    assert!(atk.cells() >= 9, "RiseUp backfired onto the cursed launcher");
    assert_eq!(vic.cells(), 0, "victim spared");
}

#[test]
fn cursed_launchers_nullify_weapon_fizzles() {
    let mut atk = Host::new(1);
    let mut vic = Host::new(2);
    deliver_weapon(&mut vic.e, &mut atk.e, WeaponToken::Mirror);
    atk.lock();
    atk.e.board.set(3, 20, Some(Cell::die(5)));
    let (a0, v0) = (atk.cells(), vic.cells());

    deliver_weapon(&mut atk.e, &mut vic.e, WeaponToken::Swap);
    assert_eq!(atk.cells(), a0, "cursed Swap fizzled; boards unchanged");
    assert_eq!(vic.cells(), v0);
}

#[test]
fn swap_installs_the_opponents_board_at_the_next_lock_not_immediately() {
    let mut a = Host::new(1);
    let mut b = Host::new(2);
    a.e.board.set(0, 22, Some(Cell::die(3)));
    b.e.board.set(9, 22, Some(Cell::die(5)));
    let a_board = export_board(&a.e.board);
    let b_board = export_board(&b.e.board);

    deliver_weapon(&mut a.e, &mut b.e, WeaponToken::Swap);
    assert_eq!(export_board(&b.e.board), b_board, "deferred: B's board is unchanged until B locks");
    assert_eq!(export_board(&a.e.board), a_board, "deferred: A's board is unchanged until A locks");

    b.lock();
    assert_eq!(export_board(&b.e.board), a_board, "B installed A's board at B's lock");
    assert_eq!(export_board(&a.e.board), a_board, "A still holds its own board until A locks");

    a.lock();
    assert_eq!(export_board(&a.e.board), b_board, "A installed B's board at A's lock");
}

#[test]
fn keating_credits_launch_snapshot_not_activation_balance() {
    let mut atk = Host::new(1);
    let mut vic = Host::new(2);
    let atk0 = atk.e.score.funds;
    vic.e.add_funds(100);
    vic.e.events.clear();
    let launch_funds = vic.e.score.funds;

    deliver_weapon(&mut atk.e, &mut vic.e, WeaponToken::Keating);
    assert_eq!(atk.e.score.funds, atk0 + launch_funds, "attacker credited the launch snapshot");
    assert_eq!(vic.e.score.funds, launch_funds, "victim not yet zeroed (activates at next lock)");

    vic.e.add_funds(50);
    vic.e.events.clear();
    let activation_funds = vic.e.score.funds;
    assert!(activation_funds > launch_funds, "victim's balance grew after launch");

    vic.lock();
    assert_eq!(vic.e.score.funds, 0, "victim loses its full activation balance");
    assert_eq!(atk.e.score.funds, atk0 + launch_funds, "attacker keeps only the launch snapshot");
}

#[test]
fn versus_latches_a_winner_when_a_side_tops_out() {
    let mut v = Match::new(7, 8);
    let (w, h) = (v.b.e.board.width, v.b.e.board.height);
    for y in 0..h {
        for x in 1..w {
            v.b.e.board.set(x, y, Some(Cell::die(1)));
        }
    }
    for _ in 0..500 {
        v.tick(16);
        if v.relay.result != 0 {
            break;
        }
    }
    assert_eq!(v.relay.result, 1, "B topped out, so A wins");
}

#[test]
fn versus_routes_a_weapon_between_the_two_humans() {
    let mut v = Match::new(1, 2);
    v.side(Side::A).e.grant_weapon(WeaponToken::RiseUp);
    v.side(Side::A).e.launch_weapon(0);
    v.tick(16);
    for _ in 0..400 {
        v.side(Side::B).e.begin_drop();
        v.tick(16);
        if v.b.cells() >= 9 {
            break;
        }
    }
    assert!(v.b.cells() >= 9, "B received A's RiseUp");
}

#[test]
fn a_spy_is_recorded_for_the_launcher_and_not_delivered_to_the_opponent() {
    let mut v = Match::new(1, 2);
    v.side(Side::A).e.grant_weapon(WeaponToken::Ames);
    v.side(Side::A).e.launch_weapon(0);
    v.tick(16);
    assert_eq!(std::mem::take(&mut v.relay.spies_a), vec![WeaponToken::Ames], "launcher's spy recorded");
    assert!(std::mem::take(&mut v.relay.spies_b).is_empty());
    v.b.lock();
    assert!(!v.b.e.weapons.is_active(WeaponToken::Ames), "the opponent is unaffected by being spied on");
}

#[test]
fn an_ordinary_weapon_rides_the_event_channel_not_a_keyframe() {
    let mut v = Match::new(1, 2);
    assert!(!v.take_dirty(), "clean at the start");
    v.side(Side::A).e.grant_weapon(WeaponToken::RiseUp);
    v.side(Side::A).e.launch_weapon(0);
    v.tick(16);
    assert!(!v.take_dirty(), "an ordinary weapon rides the event channel, no keyframe");
    let events = std::mem::take(&mut v.relay.outbox_b);
    assert!(
        events.iter().any(|e| matches!(e, RelayEvent::ReceiveWeapon(_))),
        "the delivery is recorded as an event the host forwards to B"
    );
}

#[test]
fn a_swap_marks_the_match_dirty() {
    let mut v = Match::new(1, 2);
    assert!(!v.take_dirty(), "clean at the start");
    v.side(Side::A).e.grant_weapon(WeaponToken::Swap);
    v.side(Side::A).e.launch_weapon(0);
    v.tick(16);
    assert!(v.take_dirty(), "a Swap exchange needs a keyframe, so it marks dirty");
    v.tick(16);
    assert!(!v.take_dirty(), "and it clears after being taken");
}
