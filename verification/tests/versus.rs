use battletris::cell::Cell;
use battletris::engine::{Engine, Phase};
use battletris::game::GameEvent;
use battletris::piece::{Piece, PieceKind};
use battletris::versus::{deliver_at_once, deliver_weapon, relay_at_once, Relay, RelayEvent, Side};
use battletris::weapons::WeaponToken;

/// An engine fed by a fixed cycle of pieces, keeping all funds.
struct Host {
    e: Engine,
    n: usize,
}

const KINDS: [PieceKind; 4] = [PieceKind::El, PieceKind::Long, PieceKind::Box, PieceKind::Plug];

impl Host {
    fn new(seed: u64) -> Host {
        let mut h = Host { e: Engine::new(seed), n: 0 };
        h.spawn();
        h
    }

    fn spawn(&mut self) {
        self.e.deck.clear();
        let p = Piece::construct(KINDS[self.n % KINDS.len()], self.e.def_x, self.e.def_y, 1);
        self.n += 1;
        self.e.spawn(p);
    }

    fn tick(&mut self, dt: i32) {
        if self.e.tick(dt) {
            if let Some(c) = self.e.place(false) {
                let kept = c.funds as i64;
                self.e.bank(c, kept);
                self.spawn();
            }
        }
    }

    /// Hard-drop and run the clock until the piece locks (or the game ends).
    fn lock(&mut self) {
        self.e.begin_drop();
        for _ in 0..400 {
            self.tick(16);
            if self.e.phase == Phase::Over
                || std::mem::take(&mut self.e.events).iter().any(|ev| matches!(ev, GameEvent::Locked { .. }))
            {
                return;
            }
        }
    }

    fn cells(&self) -> usize {
        let b = &self.e.board;
        (0..b.height).flat_map(|y| (0..b.width).map(move |x| (x, y))).filter(|&(x, y)| b.get(x, y).is_some()).count()
    }
}

/// Curse `victim` with Mirror launched by `launcher`, and lock so it takes effect.
fn curse(launcher: &mut Host, victim: &mut Host) {
    deliver_at_once(&mut launcher.e, &mut victim.e, WeaponToken::Mirror);
    victim.lock();
    assert!(victim.e.weapons.is_active(WeaponToken::Mirror));
}

#[test]
fn swap_exchanges_the_two_boards() {
    let mut player = Host::new(1);
    let mut ai = Host::new(2);
    player.e.board.set(3, 20, Some(Cell::die(5)));
    assert_eq!(player.cells(), 1);
    assert_eq!(ai.cells(), 0);
    deliver_at_once(&mut player.e, &mut ai.e, WeaponToken::Swap);
    assert_eq!(player.cells(), 0, "player gave its board away");
    assert_eq!(ai.e.board.get(3, 20).map(|c| c.value()), Some(5), "the computer received the player's board");
}

#[test]
fn swap_drops_bottle_and_upbyside_on_both_sides() {
    let mut player = Host::new(1);
    let mut ai = Host::new(2);
    player.e.receive_weapon(WeaponToken::Bottle);
    player.lock();
    ai.e.receive_weapon(WeaponToken::Upbyside);
    ai.lock();
    assert!(player.e.board.active.is_active(WeaponToken::Bottle));
    assert!(ai.e.board.active.is_active(WeaponToken::Upbyside));
    deliver_at_once(&mut player.e, &mut ai.e, WeaponToken::Swap);
    assert!(!player.e.board.active.is_active(WeaponToken::Bottle), "Swap cleared Bottle");
    assert!(!ai.e.board.active.is_active(WeaponToken::Upbyside), "Swap cleared Upbyside");
}

#[test]
fn susan_exchanges_arsenals() {
    let mut player = Host::new(1);
    let mut ai = Host::new(2);
    player.e.grant_weapon(WeaponToken::RiseUp);
    player.e.grant_weapon(WeaponToken::Blind);
    assert_eq!(ai.e.arsenal.token(0), None);
    deliver_at_once(&mut player.e, &mut ai.e, WeaponToken::Susan);
    assert_eq!(player.e.arsenal.token(0), None, "player arsenal emptied");
    assert_eq!(ai.e.arsenal.token(0), Some(WeaponToken::RiseUp));
    assert_eq!(ai.e.arsenal.token(1), Some(WeaponToken::Blind));
}

#[test]
fn launching_mirror_curses_the_opponent_not_the_launcher() {
    let mut player = Host::new(1);
    let mut ai = Host::new(2);
    deliver_at_once(&mut player.e, &mut ai.e, WeaponToken::Mirror);
    ai.lock();
    assert!(ai.e.weapons.is_active(WeaponToken::Mirror), "Mirror curses the opponent");
    assert!(!player.e.weapons.is_active(WeaponToken::Mirror), "the launcher itself is not armed");
}

#[test]
fn a_cursed_launchers_swap_fizzles() {
    let mut player = Host::new(1);
    let mut ai = Host::new(2);
    curse(&mut ai, &mut player);
    player.e.board.set(3, 20, Some(Cell::die(5)));
    let (p0, a0) = (player.cells(), ai.cells());
    deliver_at_once(&mut player.e, &mut ai.e, WeaponToken::Swap);
    assert_eq!(player.cells(), p0, "a cursed Swap fizzles");
    assert_eq!(ai.cells(), a0, "the other board is untouched");
}

#[test]
fn a_cursed_launchers_weapon_backfires_onto_themselves() {
    let mut player = Host::new(1);
    let mut ai = Host::new(2);
    curse(&mut ai, &mut player);
    let a0 = ai.cells();
    deliver_at_once(&mut player.e, &mut ai.e, WeaponToken::RiseUp);
    player.lock();
    assert_eq!(ai.cells(), a0, "the intended target was spared");
    assert!(player.cells() >= 9, "the backfired RiseUp hit the launcher");
}

#[test]
fn an_uncursed_spy_activates_on_the_opponent() {
    let mut player = Host::new(1);
    let mut ai = Host::new(2);
    deliver_at_once(&mut player.e, &mut ai.e, WeaponToken::Ames);
    ai.lock();
    assert!(ai.e.weapons.is_active(WeaponToken::Ames), "Ames activates on the opponent");
}

#[test]
fn d6_a_cursed_launchers_spy_fizzles() {
    let mut player = Host::new(1);
    let mut ai = Host::new(2);
    curse(&mut ai, &mut player);
    deliver_at_once(&mut player.e, &mut ai.e, WeaponToken::Ames);
    ai.lock();
    player.lock();
    assert!(!ai.e.weapons.is_active(WeaponToken::Ames), "the spy did not reach the opponent");
    assert!(!player.e.weapons.is_active(WeaponToken::Ames), "nor did it self-inflict");
}

#[test]
fn keating_credits_the_attacker_in_the_relay() {
    let mut player = Host::new(1);
    let mut ai = Host::new(2);
    ai.e.add_funds(500);
    ai.e.events.clear();
    let p0 = player.e.score.funds;
    deliver_at_once(&mut player.e, &mut ai.e, WeaponToken::Keating);
    ai.e.begin_drop();
    for _ in 0..400 {
        ai.tick(16);
        if ai.e.score.funds == 0 {
            break;
        }
    }
    assert_eq!(ai.e.score.funds, 0, "the victim was robbed");
    let mut relay = Relay::new();
    for ev in std::mem::take(&mut ai.e.events) {
        relay.relay_event(Side::B, ev, &mut ai.e, &mut player.e);
    }
    assert_eq!(player.e.score.funds, p0 + 500, "the attacker banked the seized 500");
    assert!(relay.outbox_a.contains(&RelayEvent::AddFunds(500)));
}

#[test]
fn the_relay_mirrors_scores_and_queues_weapons() {
    let mut a = Host::new(3);
    let mut b = Host::new(4);
    let mut relay = Relay::new();
    relay.relay_event(Side::A, GameEvent::Scored { score: 10, lines: 3, funds: 40 }, &mut a.e, &mut b.e);
    assert_eq!((b.e.score.op_score, b.e.score.op_lines, b.e.score.op_funds), (10, 3, 40));
    assert_eq!(relay.outbox_b, vec![RelayEvent::ReceiveOpScore { score: 10, lines: 3 }]);
    relay.relay_event(Side::A, GameEvent::WeaponLaunched(WeaponToken::RiseUp), &mut a.e, &mut b.e);
    assert_eq!(b.e.pending, vec![WeaponToken::RiseUp]);
    assert_eq!(relay.outbox_b.last(), Some(&RelayEvent::ReceiveWeapon(WeaponToken::RiseUp)));
    relay.relay_event(Side::B, GameEvent::WeaponLaunched(WeaponToken::Ames), &mut b.e, &mut a.e);
    assert_eq!(relay.spies_b, vec![WeaponToken::Ames], "a spy is recorded for its launcher");
    assert!(a.e.pending.is_empty());
    relay.relay_event(Side::A, GameEvent::EnterBazaar, &mut a.e, &mut b.e);
    assert!(relay.dirty);
    relay.relay_event(Side::B, GameEvent::GameOver, &mut b.e, &mut a.e);
    assert_eq!(relay.result, 1, "B topped out: A wins");
    relay.relay_event(Side::A, GameEvent::GameOver, &mut a.e, &mut b.e);
    assert_eq!(relay.result, 1, "the first top-out decides");
}

#[test]
fn a_relayed_swap_queues_each_board_for_the_other_side() {
    let mut a = Host::new(3);
    let mut b = Host::new(4);
    a.e.board.set(0, 27, Some(Cell::die(2)));
    let d = deliver_weapon(&mut a.e, &mut b.e, WeaponToken::Swap);
    assert!(d.needs_keyframe);
    assert_eq!(b.e.incoming_board.as_ref().map(|w| w.len()), Some(1120));
    b.lock();
    assert_eq!(b.e.board.get(0, 27).map(|c| c.value()), Some(2), "the swapped board arrived at the lock");
}

#[test]
fn relaying_at_once_credits_mirrors_and_reports_a_top_out() {
    let mut a = Host::new(3);
    let mut b = Host::new(4);
    assert!(!relay_at_once(GameEvent::FundsStolen(70), &mut a.e, &mut b.e));
    assert_eq!(b.e.score.funds, 70);
    assert!(!relay_at_once(GameEvent::Scored { score: 5, lines: 2, funds: 9 }, &mut a.e, &mut b.e));
    assert_eq!((b.e.score.op_score, b.e.score.op_lines, b.e.score.op_funds), (5, 2, 9));
    assert!(!relay_at_once(GameEvent::WeaponLaunched(WeaponToken::Keating), &mut a.e, &mut b.e));
    assert_eq!(b.e.pending, vec![WeaponToken::Keating], "a seizure is queued on the victim");
    assert_eq!(a.e.score.funds, 0, "and credited only when the victim reports it");
    assert!(relay_at_once(GameEvent::GameOver, &mut a.e, &mut b.e));
}

#[test]
fn the_computer_shops_five_weapons_in_order_then_leaves() {
    let mut g = Host::new(8);
    g.e.score.funds = 1_000_000;
    g.e.in_bazaar = true;
    battletris::ai::Computer::new().shop(&mut g.e);
    assert!(!g.e.in_bazaar);
    let held: Vec<Option<WeaponToken>> = (0..6).map(|i| g.e.arsenal.token(i)).collect();
    assert_eq!(
        &held[..5],
        &[
            Some(WeaponToken::FearedWeird),
            Some(WeaponToken::FourByFour),
            Some(WeaponToken::Hatter),
            Some(WeaponToken::Upbyside),
            Some(WeaponToken::FallOut)
        ]
    );
    assert_eq!(held[5], None, "no more than five");
}

#[test]
fn the_computer_fires_its_first_loaded_slot() {
    let mut g = Host::new(8);
    g.e.grant_weapon(WeaponToken::RiseUp);
    g.e.grant_weapon(WeaponToken::Gimp);
    g.e.launch_weapon(0);
    g.e.events.clear();
    battletris::ai::Computer::new().launch_first(&mut g.e);
    assert_eq!(g.e.events, vec![GameEvent::WeaponLaunched(WeaponToken::Gimp)]);
    battletris::ai::Computer::new().launch_first(&mut g.e);
    assert_eq!(g.e.events.len(), 1, "an empty arsenal fires nothing");
}
