//! Two-player match vocabulary: the sides, which weapons are spies, which
//! weapons a Mirror curse makes fizzle, and where a launched weapon lands once
//! the launcher's Mirror curse is taken into account, and its delivery between
//! two engines.

use vstd::prelude::*;
use crate::constants::{BT_BOARD_HGT, BT_BOARD_WTH};
use crate::engine::{boards_swapped, lemma_export_values, op_scored, scored, Engine};
use crate::game::GameEvent;
use crate::exchange::{export_board, grid_words};
use crate::keyframe::Score;
use crate::weapons::WeaponToken;

verus! {

/// A side of a head-to-head match.
#[derive(Clone, Copy, PartialEq, Eq, Debug, Structural)]
pub enum Side {
    A,
    B,
}

impl Side {
    /// The opposing side.
    pub fn other(self) -> (o: Side)
        ensures
            o == other_spec(self),
    {
        match self {
            Side::A => Side::B,
            Side::B => Side::A,
        }
    }
}

/// The opposing side, twice, is the side itself.
pub proof fn lemma_other_twice(s: Side)
    ensures
        other_spec(other_spec(s)) == s,
        other_spec(s) != s,
{
}

/// The opposing side.
pub open spec fn other_spec(s: Side) -> Side {
    match s {
        Side::A => Side::B,
        Side::B => Side::A,
    }
}

/// The spies: Ames, Ace and Condor.
pub open spec fn spy_spec(t: WeaponToken) -> bool {
    t == WeaponToken::Ames || t == WeaponToken::Ace || t == WeaponToken::Condor
}

/// Whether `token` is a spy (it reveals the opponent's board to the launcher
/// instead of hitting the opponent).
pub fn is_spy(token: WeaponToken) -> (b: bool)
    ensures
        b == spy_spec(token),
{
    match token {
        WeaponToken::Ames | WeaponToken::Ace | WeaponToken::Condor => true,
        _ => false,
    }
}

/// The nine weapons a Mirror curse makes fizzle rather than backfire: Swap,
/// Mondale, Keating, the three spies, Have a Nice Day, Lazy Susan and Mirror.
pub open spec fn nullified(t: WeaponToken) -> bool {
    t == WeaponToken::Swap || t == WeaponToken::Mondale || t == WeaponToken::Keating || t == WeaponToken::Ames || t
        == WeaponToken::Ace || t == WeaponToken::Condor || t == WeaponToken::NiceDay || t == WeaponToken::Susan || t
        == WeaponToken::Mirror
}

/// Whether a Mirror curse makes `token` fizzle harmlessly rather than backfire
/// onto the cursed launcher.
pub fn mirror_nullifies(token: WeaponToken) -> (b: bool)
    ensures
        b == nullified(token),
{
    match token {
        WeaponToken::Swap | WeaponToken::Mondale | WeaponToken::Keating | WeaponToken::Ames | WeaponToken::Ace
        | WeaponToken::Condor | WeaponToken::NiceDay | WeaponToken::Susan | WeaponToken::Mirror => true,
        _ => false,
    }
}

/// Where a launched weapon's effect goes.
#[derive(Clone, Copy, PartialEq, Eq, Debug, Structural)]
pub enum Route {
    /// The launcher is Mirror-cursed and the weapon fizzles.
    Fizzle,
    /// Swap: the two boards are exchanged.
    SwapBoards,
    /// Lazy Susan: the two arsenals are exchanged.
    SwapArsenals,
    /// Keating: the launcher is credited the victim's funds and the victim is queued the seizure.
    Seize,
    /// The launcher is Mirror-cursed: the weapon backfires onto the launcher's next lock.
    Backfire,
    /// The weapon is queued onto the victim's next lock.
    Hit,
}

/// Where `token` goes when launched by a launcher that is (`cursed`) or is not
/// Mirror-cursed.
pub open spec fn route_spec(token: WeaponToken, cursed: bool) -> Route {
    if cursed && nullified(token) {
        Route::Fizzle
    } else if token == WeaponToken::Swap {
        Route::SwapBoards
    } else if token == WeaponToken::Susan {
        Route::SwapArsenals
    } else if token == WeaponToken::Keating {
        Route::Seize
    } else if cursed {
        Route::Backfire
    } else {
        Route::Hit
    }
}

/// Resolve a launch against the launcher's Mirror curse: a cursed launcher's
/// nullified weapons fizzle and all its others backfire; an uncursed launch
/// hits the opponent (Swap and Susan exchanging, Keating seizing).
pub fn route_weapon(token: WeaponToken, cursed: bool) -> (r: Route)
    ensures
        r == route_spec(token, cursed),
        cursed ==> (r == Route::Fizzle || r == Route::Backfire),
        !cursed ==> r != Route::Fizzle && r != Route::Backfire,
{
    if cursed && mirror_nullifies(token) {
        return Route::Fizzle;
    }
    match token {
        WeaponToken::Swap => Route::SwapBoards,
        WeaponToken::Susan => Route::SwapArsenals,
        WeaponToken::Keating => Route::Seize,
        _ => if cursed {
            Route::Backfire
        } else {
            Route::Hit
        },
    }
}

/// What a delivery did, relative to the launching attacker and its victim.
#[derive(Clone, Copy, Debug)]
pub struct Delivery {
    /// A weapon queued onto the victim's next lock.
    pub queued_on_victim: Option<WeaponToken>,
    /// A weapon queued onto the attacker's next lock (a Mirror backfire).
    pub queued_on_attacker: Option<WeaponToken>,
    /// Funds credited to the attacker (Keating).
    pub attacker_credit: Option<i64>,
    /// The delivery exchanged a board or an arsenal and needs a keyframe.
    pub needs_keyframe: bool,
}

impl Default for Delivery {
    fn default() -> (d: Delivery)
        ensures
            d.queued_on_victim is None,
            d.queued_on_attacker is None,
            d.attacker_credit is None,
            !d.needs_keyframe,
    {
        Delivery { queued_on_victim: None, queued_on_attacker: None, attacker_credit: None, needs_keyframe: false }
    }
}

/// Deliver a weapon launched by `attacker` at `victim`, honoring the
/// launcher's Mirror curse (see [`route_spec`]): a fizzle changes nothing; Swap
/// queues each board onto the other side's next lock; Lazy Susan trades the
/// arsenals at once; Keating credits the attacker the victim's funds (reporting
/// the score) and queues the seizure onto the victim; a backfire queues the
/// weapon onto the attacker, a hit onto the victim.
pub fn deliver_weapon(attacker: &mut Engine, victim: &mut Engine, token: WeaponToken) -> (d: Delivery)
    requires
        old(attacker).wf(),
        old(victim).wf(),
        route_spec(token, old(attacker).on(WeaponToken::Mirror)) == Route::Seize ==> i64::MIN <= old(attacker).score.funds
            + old(victim).score.funds <= i64::MAX,
    ensures
        final(attacker).wf(),
        final(victim).wf(),
        ({
            let r = route_spec(token, old(attacker).on(WeaponToken::Mirror));
            let a = *old(attacker);
            let v = *old(victim);
            &&& d.needs_keyframe == (r == Route::SwapBoards || r == Route::SwapArsenals)
            &&& d.queued_on_victim == if r == Route::Seize || r == Route::Hit { Some(token) } else { None::<WeaponToken> }
            &&& d.queued_on_attacker == if r == Route::Backfire { Some(token) } else { None::<WeaponToken> }
            &&& d.attacker_credit == if r == Route::Seize { Some(v.score.funds) } else { None::<i64> }
            &&& r == Route::Fizzle ==> *final(attacker) == a && *final(victim) == v
            &&& r == Route::SwapBoards ==> {
                &&& *final(victim) == (Engine { incoming_board: final(victim).incoming_board, ..v })
                &&& *final(attacker) == (Engine { incoming_board: final(attacker).incoming_board, ..a })
                &&& final(victim).incoming_board matches Some(w) && w@ == grid_words(a.board.grid())
                &&& final(attacker).incoming_board matches Some(w) && w@ == grid_words(v.board.grid())
            }
            &&& r == Route::SwapArsenals ==> *final(attacker) == (Engine { arsenal: v.arsenal, ..a }) && *final(victim) == (
            Engine { arsenal: a.arsenal, ..v })
            &&& r == Route::Seize ==> {
                &&& crate::engine::scored(*final(attacker), Engine { score: Score { funds: (a.score.funds + v.score.funds) as i64, ..a.score }, ..a })
                    || (v.score.funds == 0 && *final(attacker) == a)
                &&& *final(victim) == (Engine { pending: final(victim).pending, ..v })
                &&& final(victim).pending@ == v.pending@.push(token)
            }
            &&& r == Route::Backfire ==> *final(victim) == v && *final(attacker) == (Engine { pending: final(attacker).pending, ..a })
                && final(attacker).pending@ == a.pending@.push(token)
            &&& r == Route::Hit ==> *final(attacker) == a && *final(victim) == (Engine { pending: final(victim).pending, ..v })
                && final(victim).pending@ == v.pending@.push(token)
        }),
{
    let cursed = attacker.weapons.is_active(WeaponToken::Mirror);
    match route_weapon(token, cursed) {
        Route::Fizzle => Delivery::default(),
        Route::SwapBoards => {
            let a_cells = export_board(&attacker.board);
            let v_cells = export_board(&victim.board);
            proof {
                lemma_export_values(attacker.board);
                lemma_export_values(victim.board);
            }
            victim.queue_board_swap(a_cells);
            attacker.queue_board_swap(v_cells);
            Delivery { queued_on_victim: None, queued_on_attacker: None, attacker_credit: None, needs_keyframe: true }
        },
        Route::SwapArsenals => {
            attacker.swap_arsenal_with(victim);
            Delivery { queued_on_victim: None, queued_on_attacker: None, attacker_credit: None, needs_keyframe: true }
        },
        Route::Seize => {
            let credit = victim.score.funds;
            attacker.add_funds(credit);
            victim.receive_weapon(token);
            Delivery { queued_on_victim: Some(token), queued_on_attacker: None, attacker_credit: Some(credit), needs_keyframe: false }
        },
        Route::Backfire => {
            attacker.receive_weapon(token);
            Delivery { queued_on_victim: None, queued_on_attacker: Some(token), attacker_credit: None, needs_keyframe: false }
        },
        Route::Hit => {
            victim.receive_weapon(token);
            Delivery { queued_on_victim: Some(token), queued_on_attacker: None, attacker_credit: None, needs_keyframe: false }
        },
    }
}

/// A cross-player effect applied to one side, for that side's client.
#[derive(Clone, Copy, Debug, PartialEq, Eq, Structural)]
pub enum RelayEvent {
    /// A weapon queued onto this side's next lock.
    ReceiveWeapon(WeaponToken),
    /// This side's view of its opponent's score changed (funds withheld).
    ReceiveOpScore { score: i64, lines: i64 },
    /// Funds credited to this side.
    AddFunds(i64),
}

/// Engines `a1` and `v1` are attacker `a` and victim `v` after `token` is
/// delivered at once (see [`deliver_at_once`]).
pub open spec fn delivered_at_once(a1: Engine, v1: Engine, a: Engine, v: Engine, token: WeaponToken) -> bool {
    let r = route_spec(token, a.on(WeaponToken::Mirror));
    &&& r == Route::Fizzle ==> a1 == a && v1 == v
    &&& r == Route::SwapBoards ==> boards_swapped(a1, v1, a, v)
    &&& r == Route::SwapArsenals ==> a1 == (Engine { arsenal: v.arsenal, ..a }) && v1 == (Engine { arsenal: a.arsenal, ..v })
    &&& r == Route::Backfire ==> v1 == v && a1 == (Engine { pending: a1.pending, ..a }) && a1.pending@ == a.pending@.push(token)
    &&& (r == Route::Seize || r == Route::Hit) ==> a1 == a && v1 == (Engine { pending: v1.pending, ..v }) && v1.pending@
        == v.pending@.push(token)
}

/// Deliver a weapon launched by `attacker` at `victim` when both games are at
/// hand (a match against the computer): a Mirror-cursed launcher's nullified
/// weapons fizzle and its others queue onto itself; Swap trades the boards at
/// once (see [`boards_swapped`]) and Lazy Susan the arsenals; every other
/// weapon queues onto the victim.
pub fn deliver_at_once(attacker: &mut Engine, victim: &mut Engine, token: WeaponToken)
    requires
        old(attacker).wf(),
        old(victim).wf(),
    ensures
        final(attacker).wf(),
        final(victim).wf(),
        delivered_at_once(*final(attacker), *final(victim), *old(attacker), *old(victim), token),
{
    let cursed = attacker.weapons.is_active(WeaponToken::Mirror);
    match route_weapon(token, cursed) {
        Route::Fizzle => {},
        Route::SwapBoards => attacker.swap_board_with(victim),
        Route::SwapArsenals => attacker.swap_arsenal_with(victim),
        Route::Backfire => attacker.receive_weapon(token),
        Route::Seize | Route::Hit => victim.receive_weapon(token),
    }
}

/// Relay event `ev` of one side (engine `me`) to the other (`them`) in a
/// match against the computer: a launched weapon is delivered at once (see
/// [`deliver_at_once`]), a score is mirrored on the other side, stolen funds
/// are credited to it; other events pass. Returns whether `ev` is a top-out.
pub fn relay_at_once(ev: GameEvent, me: &mut Engine, them: &mut Engine) -> (over: bool)
    requires
        old(me).wf(),
        old(them).wf(),
        ev matches GameEvent::Scored { score, lines, funds } ==> i64::MIN <= lines - old(them).score.op_lines <= i64::MAX
            && i64::MIN <= old(them).score.lines + lines <= i64::MAX,
        ev matches GameEvent::FundsStolen(amount) ==> i64::MIN <= old(them).score.funds + amount <= i64::MAX,
    ensures
        final(me).wf(),
        final(them).wf(),
        over == (ev == GameEvent::GameOver),
        ({
            let m0 = *old(me);
            let t0 = *old(them);
            let m1 = *final(me);
            let t1 = *final(them);
            match ev {
                GameEvent::WeaponLaunched(t) => delivered_at_once(m1, t1, m0, t0, t),
                GameEvent::Scored { score, lines, funds } => m1 == m0 && op_scored(t1, t0, score, lines, funds),
                GameEvent::FundsStolen(amount) => m1 == m0 && (amount == 0 ==> t1 == t0) && (amount != 0 ==> scored(
                    t1,
                    Engine { score: Score { funds: (t0.score.funds + amount) as i64, ..t0.score }, ..t0 },
                )),
                _ => m1 == m0 && t1 == t0,
            }
        }),
{
    match ev {
        GameEvent::WeaponLaunched(t) => {
            deliver_at_once(me, them, t);
            false
        },
        GameEvent::Scored { score, lines, funds } => {
            them.receive_op_score(score, lines, funds);
            false
        },
        GameEvent::FundsStolen(amount) => {
            them.add_funds(amount);
            false
        },
        GameEvent::GameOver => true,
        _ => false,
    }
}

/// The relay's bookkeeping in a head-to-head match: the result (0 ongoing,
/// 1 A won, 2 B won), whether a keyframe is due, the spies each side launched
/// and the cross-player effects each side's client is to be told of.
#[derive(Debug)]
pub struct Relay {
    pub result: i32,
    pub dirty: bool,
    pub spies_a: Vec<WeaponToken>,
    pub spies_b: Vec<WeaponToken>,
    pub outbox_a: Vec<RelayEvent>,
    pub outbox_b: Vec<RelayEvent>,
}

impl Relay {
    /// A relay with nothing recorded.
    pub fn new() -> (r: Relay)
        ensures
            r.result == 0,
            !r.dirty,
            r.spies_a@.len() == 0 && r.spies_b@.len() == 0,
            r.outbox_a@.len() == 0 && r.outbox_b@.len() == 0,
    {
        Relay { result: 0, dirty: false, spies_a: Vec::new(), spies_b: Vec::new(), outbox_a: Vec::new(), outbox_b: Vec::new() }
    }

    /// The spies side `s` launched.
    pub open spec fn spies(&self, s: Side) -> Seq<WeaponToken> {
        match s {
            Side::A => self.spies_a@,
            Side::B => self.spies_b@,
        }
    }

    /// The effects side `s`'s client is to be told of.
    pub open spec fn outbox(&self, s: Side) -> Seq<RelayEvent> {
        match s {
            Side::A => self.outbox_a@,
            Side::B => self.outbox_b@,
        }
    }

    /// Only side `s`'s spies changed, to `sp`, and its outbox to `ob`, and the
    /// other side's outbox to `oo`.
    pub open spec fn recorded(&self, o: &Relay, s: Side, sp: Seq<WeaponToken>, ob: Seq<RelayEvent>, oo: Seq<RelayEvent>) -> bool {
        &&& self.spies(s) == sp
        &&& self.spies(other_spec(s)) == o.spies(other_spec(s))
        &&& self.outbox(s) == ob
        &&& self.outbox(other_spec(s)) == oo
    }

    fn push_out(&mut self, s: Side, ev: RelayEvent)
        ensures
            final(self).result == old(self).result,
            final(self).dirty == old(self).dirty,
            final(self).recorded(old(self), other_spec(s), old(self).spies(other_spec(s)), old(self).outbox(other_spec(s)), old(self).outbox(s).push(ev)),
    {
        match s {
            Side::A => self.outbox_a.push(ev),
            Side::B => self.outbox_b.push(ev),
        }
    }

    fn push_spy(&mut self, s: Side, t: WeaponToken)
        ensures
            final(self).result == old(self).result,
            final(self).dirty == old(self).dirty,
            final(self).recorded(old(self), s, old(self).spies(s).push(t), old(self).outbox(s), old(self).outbox(other_spec(s))),
    {
        match s {
            Side::A => self.spies_a.push(t),
            Side::B => self.spies_b.push(t),
        }
    }

    /// Relay event `ev` of side `s` (whose engine is `me`; `them` is the
    /// opponent's): a launched spy is recorded for `s` unless `s` is
    /// Mirror-cursed; another launched weapon is delivered (see
    /// [`deliver_weapon`]), each weapon queued and each credit told to the side
    /// it reaches, and an exchange makes a keyframe due; a score is mirrored on
    /// the opponent and told to it; stolen funds are credited to the opponent
    /// and told to it; a bazaar makes a keyframe due; the first top-out decides
    /// the match for the opponent. Other events pass.
    pub fn relay_event(&mut self, s: Side, ev: GameEvent, me: &mut Engine, them: &mut Engine)
        requires
            old(me).wf(),
            old(them).wf(),
            ev matches GameEvent::WeaponLaunched(t) && !spy_spec(t) && route_spec(t, old(me).on(WeaponToken::Mirror))
                == Route::Seize ==> i64::MIN <= old(me).score.funds + old(them).score.funds <= i64::MAX,
            ev matches GameEvent::Scored { score, lines, funds } ==> i64::MIN <= lines - old(them).score.op_lines <= i64::MAX
                && i64::MIN <= old(them).score.lines + lines <= i64::MAX,
            ev matches GameEvent::FundsStolen(amount) ==> i64::MIN <= old(them).score.funds + amount <= i64::MAX,
        ensures
            final(me).wf(),
            final(them).wf(),
            ({
                let r0 = *old(self);
                let r1 = *final(self);
                let m0 = *old(me);
                let t0 = *old(them);
                let m1 = *final(me);
                let t1 = *final(them);
                let o = other_spec(s);
                match ev {
                    GameEvent::WeaponLaunched(t) => if spy_spec(t) {
                        &&& m1 == m0 && t1 == t0
                        &&& r1.result == r0.result && r1.dirty == r0.dirty
                        &&& r1.recorded(&r0, s, if m0.on(WeaponToken::Mirror) { r0.spies(s) } else { r0.spies(s).push(t) }, r0.outbox(s), r0.outbox(o))
                    } else {
                        let route = route_spec(t, m0.on(WeaponToken::Mirror));
                        &&& r1.result == r0.result
                        &&& r1.dirty == (r0.dirty || route == Route::SwapBoards || route == Route::SwapArsenals)
                        &&& r1.recorded(
                            &r0,
                            s,
                            r0.spies(s),
                            r0.outbox(s) + (if route == Route::Backfire { seq![RelayEvent::ReceiveWeapon(t)] } else { Seq::empty() })
                                + (if route == Route::Seize { seq![RelayEvent::AddFunds(t0.score.funds)] } else { Seq::empty() }),
                            r0.outbox(o) + (if route == Route::Seize || route == Route::Hit { seq![RelayEvent::ReceiveWeapon(t)] } else { Seq::empty() }),
                        )
                    },
                    GameEvent::Scored { score, lines, funds } => {
                        &&& m1 == m0
                        &&& op_scored(t1, t0, score, lines, funds)
                        &&& r1.result == r0.result && r1.dirty == r0.dirty
                        &&& r1.recorded(&r0, s, r0.spies(s), r0.outbox(s), r0.outbox(o).push(RelayEvent::ReceiveOpScore { score, lines }))
                    },
                    GameEvent::FundsStolen(amount) => {
                        &&& m1 == m0
                        &&& amount == 0 ==> t1 == t0
                        &&& amount != 0 ==> scored(t1, Engine { score: Score { funds: (t0.score.funds + amount) as i64, ..t0.score }, ..t0 })
                        &&& r1.result == r0.result && r1.dirty == r0.dirty
                        &&& r1.recorded(&r0, s, r0.spies(s), r0.outbox(s), r0.outbox(o).push(RelayEvent::AddFunds(amount)))
                    },
                    GameEvent::EnterBazaar => m1 == m0 && t1 == t0 && r1 == (Relay { dirty: true, ..r0 }),
                    GameEvent::GameOver => m1 == m0 && t1 == t0 && r1 == (Relay {
                        result: if r0.result == 0 { if s == Side::A { 2i32 } else { 1i32 } } else { r0.result },
                        ..r0
                    }),
                    _ => m1 == m0 && t1 == t0 && r1 == r0,
                }
            }),
    {
        let o = s.other();
        match ev {
            GameEvent::WeaponLaunched(t) => {
                if is_spy(t) {
                    if !me.weapons.is_active(WeaponToken::Mirror) {
                        self.push_spy(s, t);
                    }
                } else {
                    let d = deliver_weapon(me, them, t);
                    let ghost r0 = *self;
                    if let Some(q) = d.queued_on_victim {
                        self.push_out(o, RelayEvent::ReceiveWeapon(q));
                    }
                    let ghost r1 = *self;
                    if let Some(q) = d.queued_on_attacker {
                        self.push_out(s, RelayEvent::ReceiveWeapon(q));
                    }
                    let ghost r2 = *self;
                    if let Some(amount) = d.attacker_credit {
                        self.push_out(s, RelayEvent::AddFunds(amount));
                    }
                    if d.needs_keyframe {
                        self.dirty = true;
                    }
                    proof {
                        lemma_other_twice(s);
                        assert(self.outbox(s) =~= r0.outbox(s) + (if d.queued_on_attacker is Some { seq![RelayEvent::ReceiveWeapon(t)] } else { Seq::empty() })
                                + (if d.attacker_credit is Some { seq![RelayEvent::AddFunds(d.attacker_credit.unwrap())] } else { Seq::empty() }));
                        assert(self.outbox(o) =~= r0.outbox(o) + (if d.queued_on_victim is Some { seq![RelayEvent::ReceiveWeapon(t)] } else { Seq::empty() }));
                    }
                }
            },
            GameEvent::Scored { score, lines, funds } => {
                them.receive_op_score(score, lines, funds);
                self.push_out(o, RelayEvent::ReceiveOpScore { score, lines });
                proof {
                    lemma_other_twice(s);
                }
            },
            GameEvent::FundsStolen(amount) => {
                them.add_funds(amount);
                self.push_out(o, RelayEvent::AddFunds(amount));
                proof {
                    lemma_other_twice(s);
                }
            },
            GameEvent::EnterBazaar => {
                self.dirty = true;
            },
            GameEvent::GameOver => {
                if self.result == 0 {
                    self.result = match s {
                        Side::A => 2,
                        Side::B => 1,
                    };
                }
            },
            _ => {},
        }
    }
}

} // verus!
