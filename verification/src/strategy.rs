//! The computer opponent's economy: which weapons it buys in the bazaar and
//! when it launches them.
//!
//! Purchases form combos. Every weapon bought becomes an order, and an order
//! fires once one of its triggers is met: the opponent's line count, the number
//! of bazaars held, or the computer's own stack height. Spies, Meadow, Susan and
//! Reagan start out unbuyable; Susan unlocks at the opponent's fiftieth line and
//! Swap is bought only while the computer's own stack is high. The computer
//! never launches Hatter, FlipOut or Speedy, and holds its launches while it is
//! Mirror-cursed.

use vstd::prelude::*;
use crate::ai::{board_top, first_nonempty};
use crate::arsenal::{Arsenal, first_held, lemma_first_held_is, use_slot_spec};
use crate::bazaar::{bazaar_buy, can_buy, fire_slot, stocked};
use crate::board::Board;
use crate::policy::{cost, price_of};
use crate::rng::{Rng, draw, lcg_next, seed_state};
use crate::weapons::{WeaponToken, token_at, token_index};

verus! {

/// The computer buys Swap only while its own stack reaches this row or higher.
pub const BT_SWAPLINE: i32 = 5;
/// A combo is complete once its purchases have cost this much.
pub const BT_MIN_COMBO_COST: i64 = 750;
/// A chained combo (Speedy after Speedy) stops growing at this cost.
pub const BT_MAX_COMBO_COST: i64 = 1250;
/// Random draws allowed when choosing the weapon that starts a combo.
pub const PICK_TRIES: u32 = 256;
/// Buying passes allowed per bazaar.
pub const SHOP_PASSES: u32 = 256;

/// What an order does once its trigger fires.
#[derive(Clone, Copy, Debug, PartialEq, Eq, Structural)]
pub enum OrderKind {
    /// Launch the weapon (held back while the computer is Mirror-cursed).
    Launch,
    /// A bought combo member, waiting for its combo to complete.
    Combo,
    /// Make the weapon buyable again.
    CanPurchase,
}

/// An action on a weapon with up to three triggers. A trigger of `-1` is off;
/// the order fires when any trigger that is on is met.
#[derive(Clone, Copy, Debug)]
pub struct Order {
    pub kind: OrderKind,
    /// The weapon's index.
    pub weapon: i32,
    /// Fires once the opponent has cleared this many lines.
    pub line_no: i32,
    /// Fires once this many bazaars have been held.
    pub bazaar_no: i32,
    /// Fires once the computer's own stack top has risen to this row.
    pub my_line_no: i32,
}

/// The strategy's state as the contracts see it.
#[verifier::ext_equal]
pub struct Economy {
    /// Pending orders, oldest first.
    pub orders: Seq<Order>,
    /// Per weapon index: may it start or join a combo.
    pub can_purchase: Seq<bool>,
    /// Per weapon index: may a completed combo member be launched.
    pub can_launch: Seq<bool>,
    /// The weapon to buy next, carrying a combo chain across purchases.
    pub next_weapon: Option<int>,
    /// What the current combo has cost: `-1` before the first purchase, `0`
    /// once a combo is complete.
    pub combo_cost: int,
    /// Bazaars held so far.
    pub bazaar_no: int,
    /// The opponent line count stamped onto new orders.
    pub next_launch: int,
    /// The state of the strategy's own random stream.
    pub rng: u64,
}

/// A bazaar visit in progress: the strategy, the funds and the arsenal rows.
#[verifier::ext_equal]
pub struct Shop {
    pub e: Economy,
    pub funds: int,
    pub tokens: Seq<Option<WeaponToken>>,
    pub qty: Seq<u16>,
}

/// A pass over the orders in progress: the next order to look at, the line of
/// the first launch that fired in this pass, the arsenal rows, and the weapons
/// fired so far.
#[verifier::ext_equal]
pub struct Volley {
    pub e: Economy,
    pub i: int,
    pub prev_line: int,
    pub tokens: Seq<Option<WeaponToken>>,
    pub qty: Seq<u16>,
    pub fired: Seq<WeaponToken>,
}

/// Carter, Susan and Swap are bought at most once per queue: never while an
/// order for the same weapon is pending.
pub open spec fn once_per_queue(w: int) -> bool {
    let t = token_at(w);
    t == WeaponToken::Carter || t == WeaponToken::Susan || t == WeaponToken::Swap
}

/// A weapon may start a combo when it is buyable and is not a once-per-queue
/// weapon that an order is already waiting on.
pub open spec fn approved(e: Economy, w: int) -> bool {
    &&& e.can_purchase[w]
    &&& !(once_per_queue(w) && exists|i: int| 0 <= i < e.orders.len() && (#[trigger] e.orders[i]).weapon == w)
}

/// Up to `tries` random draws for the weapon that starts the next combo; the
/// first approved draw becomes the next weapon.
pub open spec fn pick(e: Economy, tries: nat) -> Economy
    decreases tries,
{
    if tries == 0 {
        e
    } else {
        let r = lcg_next(e.rng);
        let n = draw(r) % 34;
        let e1 = Economy { rng: r, ..e };
        if approved(e1, n) {
            Economy { next_weapon: Some(n), ..e1 }
        } else {
            pick(e1, (tries - 1) as nat)
        }
    }
}

/// An order that makes `w` buyable again at the opponent's line `line`.
pub open spec fn unlock_order(w: WeaponToken, line: i32) -> Order {
    Order { kind: OrderKind::CanPurchase, weapon: token_index(w) as i32, line_no: line, bazaar_no: -1i32, my_line_no: -1i32 }
}

/// The shop after weapon `w` has been bought: the price is paid and the weapon
/// stocked, its order queued, combo chains followed (NiceDay pulls in a Reagan,
/// Speedy stacks itself up to the combo limit), and the combo closed once it
/// has cost enough or holds a Susan.
pub open spec fn after_buy(s: Shop, w: int, carter: bool) -> Shop {
    let t = token_at(w);
    let e = s.e;
    let price = cost(t, carter);
    let nd = token_index(WeaponToken::NiceDay);
    let rg = token_index(WeaponToken::Reagan);
    let combo1 = if e.combo_cost < 0 { price } else { e.combo_cost + price };
    let kind = if t == WeaponToken::SoLong || t == WeaponToken::Mondale || t == WeaponToken::Carter {
        OrderKind::Launch
    } else {
        OrderKind::Combo
    };
    let cl1 = if t == WeaponToken::Reagan { e.can_launch.update(nd, true) } else { e.can_launch };
    let order = Order { kind, weapon: w as i32, line_no: e.next_launch as i32, bazaar_no: -1i32, my_line_no: -1i32 };
    let cp2 = if t == WeaponToken::NiceDay {
        e.can_purchase.update(nd, false).update(rg, true)
    } else if t == WeaponToken::Reagan {
        e.can_purchase.update(rg, false)
    } else {
        e.can_purchase
    };
    let cl2 = if t == WeaponToken::NiceDay { cl1.update(nd, false) } else { cl1 };
    let next2 = if t == WeaponToken::NiceDay {
        Some(rg)
    } else if t == WeaponToken::Speedy && combo1 < BT_MAX_COMBO_COST {
        Some(w)
    } else {
        None
    };
    let nl2 = if t == WeaponToken::NiceDay { e.next_launch + 1 } else { e.next_launch };
    let combo2 = if t == WeaponToken::NiceDay && combo1 >= BT_MAX_COMBO_COST { BT_MAX_COMBO_COST - 1 } else { combo1 };
    let combo3 = if (combo2 >= BT_MIN_COMBO_COST && next2 is None) || t == WeaponToken::Susan { 0 } else { combo2 };
    let (tokens, qty) = stocked(s.tokens, s.qty, t);
    Shop {
        e: Economy {
            orders: e.orders.push(order),
            can_purchase: cp2,
            can_launch: cl2,
            next_weapon: next2,
            combo_cost: combo3,
            next_launch: nl2,
            ..e
        },
        funds: s.funds - price,
        tokens,
        qty,
    }
}

/// Every weapon costs between 15 and 2400.
pub proof fn lemma_cost_bounds(t: WeaponToken, carter: bool)
    ensures
        15 <= cost(t, carter) <= 2400,
{
}

/// Buy the next weapon, and the next after it, while the funds and the arsenal
/// allow; also says whether anything was bought.
pub open spec fn buy_chain(s: Shop, carter: bool, in_bazaar: bool) -> (Shop, bool)
    decreases s.funds,
{
    match s.e.next_weapon {
        None => (s, false),
        Some(w) => {
            let t = token_at(w);
            if cost(t, carter) > s.funds || !can_buy(s.tokens, s.qty, s.funds, t, carter, in_bazaar) {
                (s, false)
            } else {
                proof {
                    lemma_cost_bounds(t, carter);
                }
                (buy_chain(after_buy(s, w, carter), carter, in_bazaar).0, true)
            }
        },
    }
}

/// Up to `k` buying passes: each picks a weapon when none is pending, follows
/// its chain, and the shopping stops once a pass buys nothing or closes a combo.
pub open spec fn shop_passes(s: Shop, carter: bool, in_bazaar: bool, k: nat) -> Shop
    decreases k,
{
    if k == 0 {
        s
    } else {
        let s1 = if s.e.next_weapon is None { Shop { e: pick(s.e, PICK_TRIES as nat), ..s } } else { s };
        if s1.e.next_weapon is None {
            s1
        } else {
            let (s2, any) = buy_chain(s1, carter, in_bazaar);
            if !any || s2.e.combo_cost == 0 {
                s2
            } else {
                shop_passes(s2, carter, in_bazaar, (k - 1) as nat)
            }
        }
    }
}

/// Once a combo is complete, each of its waiting members that may be launched
/// becomes a launch order.
pub open spec fn promoted(e: Economy) -> Economy {
    if e.combo_cost == 0 {
        Economy {
            orders: e.orders.map_values(
                |o: Order|
                    if o.kind == OrderKind::Combo && e.can_launch[o.weapon as int] {
                        Order { kind: OrderKind::Launch, ..o }
                    } else {
                        o
                    },
            ),
            ..e
        }
    } else {
        e
    }
}

/// A whole bazaar visit: count the bazaar, set the Swap gate from the stack top,
/// shop, and promote a completed combo.
pub open spec fn shopped(
    e: Economy,
    top: int,
    carter: bool,
    in_bazaar: bool,
    funds: int,
    tokens: Seq<Option<WeaponToken>>,
    qty: Seq<u16>,
) -> Shop {
    let e0 = Economy {
        bazaar_no: e.bazaar_no + 1,
        can_purchase: e.can_purchase.update(token_index(WeaponToken::Swap), top <= BT_SWAPLINE),
        ..e
    };
    let s = shop_passes(Shop { e: e0, funds, tokens, qty }, carter, in_bazaar, SHOP_PASSES as nat);
    Shop { e: promoted(s.e), ..s }
}

/// Launching weapon index `w`: the computer never fires Hatter, FlipOut or
/// Speedy; otherwise the first slot holding one is fired (if firing is
/// possible), and a Reagan that was found puts Reagan, Keating and NiceDay out
/// of reach for fifty of the opponent's lines.
pub open spec fn launched(v: Volley, w: int, op_lines: int, can_fire: bool) -> Volley {
    let t = token_at(w);
    if t == WeaponToken::Hatter || t == WeaponToken::FlipOut || t == WeaponToken::Speedy {
        v
    } else {
        let k = first_held(v.tokens, v.qty, t, 0);
        if k >= 10 {
            v
        } else {
            let (tokens, qty) = if can_fire { use_slot_spec(v.tokens, v.qty, k) } else { (v.tokens, v.qty) };
            let fired = if can_fire { v.fired.push(t) } else { v.fired };
            let v1 = Volley { tokens, qty, fired, ..v };
            if t == WeaponToken::Reagan {
                let resume = (op_lines + 50) as i32;
                let e = v1.e;
                let rg = token_index(WeaponToken::Reagan);
                let ke = token_index(WeaponToken::Keating);
                let nd = token_index(WeaponToken::NiceDay);
                Volley {
                    e: Economy {
                        orders: e.orders.push(unlock_order(WeaponToken::Reagan, resume)).push(
                            unlock_order(WeaponToken::Keating, resume),
                        ).push(unlock_order(WeaponToken::NiceDay, resume)),
                        can_purchase: e.can_purchase.update(rg, false).update(ke, false).update(nd, false),
                        can_launch: e.can_launch.update(nd, false),
                        ..e
                    },
                    ..v1
                }
            } else {
                v1
            }
        }
    }
}

/// Order `o` after rescheduling: once a launch has fired in this pass, a later
/// line trigger is moved by however late that launch was.
pub open spec fn rescheduled(o: Order, prev_line: int, op_lines: int) -> Order {
    if prev_line > -1 && o.line_no > -1 && o.line_no > prev_line {
        Order { line_no: (o.line_no - prev_line + op_lines) as i32, ..o }
    } else {
        o
    }
}

/// Whether an order's trigger is met.
pub open spec fn triggered(o: Order, op_lines: int, bazaar_no: int, top: int) -> bool {
    ||| o.line_no > -1 && o.line_no <= op_lines
    ||| o.bazaar_no > -1 && o.bazaar_no <= bazaar_no
    ||| o.my_line_no > -1 && o.my_line_no >= top
}

/// Looking at the order at `v.i`: reschedule it, then fire it if triggered. A
/// fired launch (when not Mirror-cursed) or unlock leaves the queue; anything
/// else stays and the pass moves on.
pub open spec fn order_step(v: Volley, op_lines: int, top: int, mirror: bool, can_fire: bool) -> Volley {
    let o = rescheduled(v.e.orders[v.i], v.prev_line, op_lines);
    let orders1 = v.e.orders.update(v.i, o);
    let kept = Volley { e: Economy { orders: orders1, ..v.e }, i: v.i + 1, ..v };
    if triggered(o, op_lines, v.e.bazaar_no, top) {
        if o.kind == OrderKind::Launch && !mirror {
            let pl = if v.prev_line == -1 && o.line_no > -1 { o.line_no as int } else { v.prev_line };
            let v1 = Volley { e: Economy { orders: orders1.remove(v.i), ..v.e }, prev_line: pl, ..v };
            launched(v1, o.weapon as int, op_lines, can_fire)
        } else if o.kind == OrderKind::CanPurchase {
            Volley {
                e: Economy {
                    orders: orders1.remove(v.i),
                    can_purchase: v.e.can_purchase.update(o.weapon as int, true),
                    ..v.e
                },
                ..v
            }
        } else {
            kept
        }
    } else {
        kept
    }
}

/// How many launch orders a queue holds.
pub open spec fn launch_count(s: Seq<Order>) -> nat
    decreases s.len(),
{
    if s.len() == 0 {
        0
    } else {
        launch_count(s.drop_last()) + if s.last().kind == OrderKind::Launch { 1nat } else { 0nat }
    }
}

proof fn lemma_launch_count_concat(a: Seq<Order>, b: Seq<Order>)
    ensures
        launch_count(a + b) == launch_count(a) + launch_count(b),
    decreases b.len(),
{
    if b.len() == 0 {
        assert(a + b =~= a);
    } else {
        assert((a + b).drop_last() =~= a + b.drop_last());
        lemma_launch_count_concat(a, b.drop_last());
    }
}

proof fn lemma_launch_count_one(o: Order)
    ensures
        launch_count(seq![o]) == if o.kind == OrderKind::Launch { 1nat } else { 0nat },
{
    assert(seq![o].drop_last() =~= Seq::<Order>::empty());
    assert(launch_count(Seq::<Order>::empty()) == 0);
    assert(seq![o].last() == o);
}

proof fn lemma_launch_count_push(s: Seq<Order>, o: Order)
    ensures
        launch_count(s.push(o)) == launch_count(s) + if o.kind == OrderKind::Launch { 1nat } else { 0nat },
{
    assert(s.push(o).drop_last() =~= s);
}

/// Splitting a queue around position `i`.
proof fn lemma_launch_count_at(s: Seq<Order>, i: int)
    requires
        0 <= i < s.len(),
    ensures
        launch_count(s) == launch_count(s.take(i)) + (if s[i].kind == OrderKind::Launch { 1nat } else { 0nat })
            + launch_count(s.skip(i + 1)),
{
    assert(s =~= s.take(i) + seq![s[i]] + s.skip(i + 1));
    lemma_launch_count_concat(s.take(i) + seq![s[i]], s.skip(i + 1));
    lemma_launch_count_concat(s.take(i), seq![s[i]]);
    lemma_launch_count_one(s[i]);
}

/// Replacing an order by one of the same kind keeps the count; removing one
/// takes away its own contribution.
proof fn lemma_launch_count_edit(s: Seq<Order>, i: int, o: Order)
    requires
        0 <= i < s.len(),
        o.kind == s[i].kind,
    ensures
        launch_count(s.update(i, o)) == launch_count(s),
        launch_count(s.update(i, o).remove(i)) + (if o.kind == OrderKind::Launch { 1nat } else { 0nat })
            == launch_count(s),
{
    let u = s.update(i, o);
    lemma_launch_count_at(s, i);
    lemma_launch_count_at(u, i);
    assert(u.take(i) =~= s.take(i));
    assert(u.skip(i + 1) =~= s.skip(i + 1));
    assert(u.remove(i) =~= u.take(i) + u.skip(i + 1));
    lemma_launch_count_concat(u.take(i), u.skip(i + 1));
}

/// A step never adds a launch order, and either removes one or moves on.
pub proof fn lemma_order_step_measure(v: Volley, op_lines: int, top: int, mirror: bool, can_fire: bool)
    requires
        0 <= v.i < v.e.orders.len(),
    ensures
        ({
            let n = order_step(v, op_lines, top, mirror, can_fire);
            ||| launch_count(n.e.orders) < launch_count(v.e.orders)
            ||| (launch_count(n.e.orders) == launch_count(v.e.orders) && 0 <= n.e.orders.len() - n.i < v.e.orders.len() - v.i)
        }),
{
    let o = rescheduled(v.e.orders[v.i], v.prev_line, op_lines);
    lemma_launch_count_edit(v.e.orders, v.i, o);
    let orders1 = v.e.orders.update(v.i, o);
    if triggered(o, op_lines, v.e.bazaar_no, top) && o.kind == OrderKind::Launch && !mirror {
        let pl = if v.prev_line == -1 && o.line_no > -1 { o.line_no as int } else { v.prev_line };
        let v1 = Volley { e: Economy { orders: orders1.remove(v.i), ..v.e }, prev_line: pl, ..v };
        let t = token_at(o.weapon as int);
        let resume = (op_lines + 50) as i32;
        let r = orders1.remove(v.i);
        lemma_launch_count_push(r, unlock_order(WeaponToken::Reagan, resume));
        lemma_launch_count_push(r.push(unlock_order(WeaponToken::Reagan, resume)), unlock_order(WeaponToken::Keating, resume));
        lemma_launch_count_push(
            r.push(unlock_order(WeaponToken::Reagan, resume)).push(unlock_order(WeaponToken::Keating, resume)),
            unlock_order(WeaponToken::NiceDay, resume),
        );
    }
}

/// The rest of a pass over the orders, from `v.i` on.
pub open spec fn run_orders(v: Volley, op_lines: int, top: int, mirror: bool, can_fire: bool) -> Volley
    decreases launch_count(v.e.orders), v.e.orders.len() - v.i,
{
    if v.i < 0 || v.i >= v.e.orders.len() {
        v
    } else {
        proof {
            lemma_order_step_measure(v, op_lines, top, mirror, can_fire);
        }
        run_orders(order_step(v, op_lines, top, mirror, can_fire), op_lines, top, mirror, can_fire)
    }
}

/// The shop as seen from a strategy state, a purse and an arsenal.
pub open spec fn shop_of(e: Economy, funds: i64, a: &Arsenal) -> Shop {
    Shop { e, funds: funds as int, tokens: a.tokens(), qty: a.quantities() }
}

/// The pass over the orders as seen from its pieces.
pub open spec fn volley_of(e: Economy, i: int, prev_line: int, a: &Arsenal, fired: Seq<WeaponToken>) -> Volley {
    Volley { e, i, prev_line, tokens: a.tokens(), qty: a.quantities(), fired }
}

/// Hatter, FlipOut and Speedy: the weapons the computer never fires.
pub open spec fn never_fired(t: WeaponToken) -> bool {
    t == WeaponToken::Hatter || t == WeaponToken::FlipOut || t == WeaponToken::Speedy
}

/// A pass over the orders never fires Hatter, FlipOut or Speedy: whatever it
/// adds to the fired list is none of them.
pub proof fn lemma_never_fires_banned(v: Volley, op_lines: int, top: int, mirror: bool, can_fire: bool)
    requires
        forall|k: int| 0 <= k < v.fired.len() ==> !never_fired(#[trigger] v.fired[k]),
    ensures
        forall|k: int|
            0 <= k < run_orders(v, op_lines, top, mirror, can_fire).fired.len() ==> !never_fired(
                #[trigger] run_orders(v, op_lines, top, mirror, can_fire).fired[k],
            ),
    decreases launch_count(v.e.orders), v.e.orders.len() - v.i,
{
    if 0 <= v.i < v.e.orders.len() {
        lemma_order_step_measure(v, op_lines, top, mirror, can_fire);
        let n = order_step(v, op_lines, top, mirror, can_fire);
        assert forall|k: int| 0 <= k < n.fired.len() implies !never_fired(#[trigger] n.fired[k]) by {
            if k < v.fired.len() {
                assert(n.fired[k] == v.fired[k]);
            }
        }
        lemma_never_fires_banned(n, op_lines, top, mirror, can_fire);
    }
}

/// While the computer is Mirror-cursed a pass fires nothing and leaves the
/// arsenal as it was.
pub proof fn lemma_mirror_holds_fire(v: Volley, op_lines: int, top: int, can_fire: bool)
    ensures
        run_orders(v, op_lines, top, true, can_fire).fired == v.fired,
        run_orders(v, op_lines, top, true, can_fire).tokens == v.tokens,
        run_orders(v, op_lines, top, true, can_fire).qty == v.qty,
    decreases launch_count(v.e.orders), v.e.orders.len() - v.i,
{
    if 0 <= v.i < v.e.orders.len() {
        lemma_order_step_measure(v, op_lines, top, true, can_fire);
        lemma_mirror_holds_fire(order_step(v, op_lines, top, true, can_fire), op_lines, top, can_fire);
    }
}

/// Following a purchase chain never spends more than the funds held: funds
/// only go down, and never below zero when they started at zero or more.
pub proof fn lemma_chain_within_means(s: Shop, carter: bool, in_bazaar: bool)
    ensures
        buy_chain(s, carter, in_bazaar).0.funds <= s.funds,
        s.funds >= 0 ==> buy_chain(s, carter, in_bazaar).0.funds >= 0,
    decreases s.funds,
{
    if let Some(w) = s.e.next_weapon {
        let t = token_at(w);
        if !(cost(t, carter) > s.funds || !can_buy(s.tokens, s.qty, s.funds, t, carter, in_bazaar)) {
            lemma_cost_bounds(t, carter);
            lemma_chain_within_means(after_buy(s, w, carter), carter, in_bazaar);
        }
    }
}

proof fn lemma_passes_within_means(s: Shop, carter: bool, in_bazaar: bool, k: nat)
    ensures
        shop_passes(s, carter, in_bazaar, k).funds <= s.funds,
        s.funds >= 0 ==> shop_passes(s, carter, in_bazaar, k).funds >= 0,
    decreases k,
{
    if k > 0 {
        let s1 = if s.e.next_weapon is None { Shop { e: pick(s.e, PICK_TRIES as nat), ..s } } else { s };
        if s1.e.next_weapon is Some {
            lemma_chain_within_means(s1, carter, in_bazaar);
            let (s2, any) = buy_chain(s1, carter, in_bazaar);
            if any && s2.e.combo_cost != 0 {
                lemma_passes_within_means(s2, carter, in_bazaar, (k - 1) as nat);
            }
        }
    }
}

/// A bazaar visit spends, never earns, and never spends below zero funds that
/// started at zero or more.
pub proof fn lemma_shopping_within_means(
    e: Economy,
    top: int,
    carter: bool,
    in_bazaar: bool,
    funds: int,
    tokens: Seq<Option<WeaponToken>>,
    qty: Seq<u16>,
)
    ensures
        shopped(e, top, carter, in_bazaar, funds, tokens, qty).funds <= funds,
        funds >= 0 ==> shopped(e, top, carter, in_bazaar, funds, tokens, qty).funds >= 0,
{
    let e0 = Economy {
        bazaar_no: e.bazaar_no + 1,
        can_purchase: e.can_purchase.update(token_index(WeaponToken::Swap), top <= BT_SWAPLINE),
        ..e
    };
    lemma_passes_within_means(Shop { e: e0, funds, tokens, qty }, carter, in_bazaar, SHOP_PASSES as nat);
}

/// The computer's economy and launch engine.
#[derive(Clone, Debug)]
pub struct Strategy {
    commando: Vec<Order>,
    can_purchase: [bool; 34],
    can_launch: [bool; 34],
    next_weapon: Option<usize>,
    combo_cost: i64,
    bazaar_no: i32,
    next_launch: i32,
    rng: Rng,
}

impl View for Strategy {
    type V = Economy;

    closed spec fn view(&self) -> Economy {
        Economy {
            orders: self.commando@,
            can_purchase: self.can_purchase@,
            can_launch: self.can_launch@,
            next_weapon: match self.next_weapon {
                Some(w) => Some(w as int),
                None => None,
            },
            combo_cost: self.combo_cost as int,
            bazaar_no: self.bazaar_no as int,
            next_launch: self.next_launch as int,
            rng: self.rng@,
        }
    }
}

/// The state a fresh strategy starts in.
pub open spec fn initial_economy(seed: u64) -> Economy {
    let locked = set![
        token_index(WeaponToken::Ace),
        token_index(WeaponToken::Condor),
        token_index(WeaponToken::Ames),
        token_index(WeaponToken::Meadow),
        token_index(WeaponToken::Susan),
        token_index(WeaponToken::Reagan),
    ];
    Economy {
        orders: seq![
            Order {
                kind: OrderKind::CanPurchase,
                weapon: token_index(WeaponToken::Susan) as i32,
                line_no: 50i32,
                bazaar_no: -1i32,
                my_line_no: -1i32,
            },
        ],
        can_purchase: Seq::new(34, |i: int| !locked.contains(i)),
        can_launch: Seq::new(34, |i: int| true),
        next_weapon: None,
        combo_cost: -1,
        bazaar_no: 0,
        next_launch: 0,
        rng: seed_state(seed),
    }
}

/// The state's invariant: orders name real weapons, and the combo cost stays
/// in range (below the completion mark unless a chain is pending).
pub open spec fn economy_ok(e: Economy) -> bool {
    &&& e.can_purchase.len() == 34
    &&& e.can_launch.len() == 34
    &&& forall|i: int| 0 <= i < e.orders.len() ==> 0 <= #[trigger] e.orders[i].weapon < 34
    &&& match e.next_weapon {
        Some(w) => 0 <= w < 34 && -1 <= e.combo_cost < BT_MAX_COMBO_COST,
        None => -1 <= e.combo_cost < BT_MIN_COMBO_COST,
    }
}

/// The shop's extra invariant while NiceDay may push the launch line: either
/// there is room for it, or NiceDay can no longer be bought in this visit.
pub open spec fn launch_room(e: Economy) -> bool {
    ||| e.next_launch < i32::MAX
    ||| (!e.can_purchase[token_index(WeaponToken::NiceDay)] && e.next_weapon != Some(
        token_index(WeaponToken::NiceDay),
    ))
}

impl Strategy {
    /// The strategy's invariant.
    pub closed spec fn wf(&self) -> bool {
        economy_ok(self@)
    }

    /// A fresh strategy: every weapon buyable except the spies, Meadow, Susan and
    /// Reagan, and one order that unlocks Susan at the opponent's fiftieth line.
    pub fn new(seed: u64) -> (s: Strategy)
        ensures
            s.wf(),
            s@ == initial_economy(seed),
    {
        let mut can_purchase = [true; 34];
        can_purchase[WeaponToken::Ace.index()] = false;
        can_purchase[WeaponToken::Condor.index()] = false;
        can_purchase[WeaponToken::Ames.index()] = false;
        can_purchase[WeaponToken::Meadow.index()] = false;
        can_purchase[WeaponToken::Susan.index()] = false;
        can_purchase[WeaponToken::Reagan.index()] = false;
        let mut commando: Vec<Order> = Vec::new();
        commando.push(
            Order {
                kind: OrderKind::CanPurchase,
                weapon: WeaponToken::Susan.index() as i32,
                line_no: 50i32,
                bazaar_no: -1i32,
                my_line_no: -1i32,
            },
        );
        let s = Strategy {
            commando,
            can_purchase,
            can_launch: [true; 34],
            next_weapon: None,
            combo_cost: -1,
            bazaar_no: 0,
            next_launch: 0,
            rng: Rng::new(seed),
        };
        proof {
            let e = initial_economy(seed);
            assert(s@.can_purchase =~= e.can_purchase);
            assert(s@.can_launch =~= e.can_launch);
            assert(s@.orders =~= e.orders);
            assert(s@ =~= e);
        }
        s
    }

    /// Whether weapon index `w` may currently be bought.
    pub fn can_purchase(&self, w: usize) -> (b: bool)
        requires
            w < 34,
            self.wf(),
        ensures
            b == self@.can_purchase[w as int],
    {
        self.can_purchase[w]
    }

    /// How many orders are pending.
    pub fn pending_orders(&self) -> (n: usize)
        ensures
            n == self@.orders.len(),
    {
        self.commando.len()
    }

    /// Queue an immediate launch of `weapon`: an order that fires as soon as the
    /// opponent has cleared any line count at all.
    pub fn queue_launch(&mut self, weapon: WeaponToken)
        requires
            old(self).wf(),
        ensures
            final(self).wf(),
            final(self)@ == (Economy {
                orders: old(self)@.orders.push(
                    Order { kind: OrderKind::Launch, weapon: token_index(weapon) as i32, line_no: 0i32, bazaar_no: -1i32, my_line_no: -1i32 },
                ),
                ..old(self)@
            }),
    {
        self.commando.push(
            Order { kind: OrderKind::Launch, weapon: weapon.index() as i32, line_no: 0i32, bazaar_no: -1i32, my_line_no: -1i32 },
        );
        proof {
            assert(self@ =~= (Economy {
                orders: old(self)@.orders.push(
                    Order { kind: OrderKind::Launch, weapon: token_index(weapon) as i32, line_no: 0i32, bazaar_no: -1i32, my_line_no: -1i32 },
                ),
                ..old(self)@
            }));
        }
    }

    /// The Carter-adjusted price of weapon index `w`.
    fn price_weapon(w: usize, carter: bool) -> (p: i64)
        requires
            w < 34,
        ensures
            p == cost(token_at(w as int), carter),
    {
        match WeaponToken::from_index(w as i32) {
            Some(t) => price_of(t, carter),
            None => 0,
        }
    }

    /// Whether weapon index `weapon` may start a combo.
    fn purchase_approved(&self, weapon: usize) -> (b: bool)
        requires
            self.wf(),
            weapon < 34,
        ensures
            b == approved(self@, weapon as int),
    {
        if !self.can_purchase[weapon] {
            return false;
        }
        let mut i: usize = 0;
        while i < self.commando.len()
            invariant
                self.wf(),
                weapon < 34,
                self@.can_purchase[weapon as int],
                0 <= i <= self.commando@.len(),
                forall|j: int| 0 <= j < i ==> !(once_per_queue(weapon as int) && (#[trigger] self@.orders[j]).weapon == weapon),
            decreases self.commando@.len() - i,
        {
            let o = self.commando[i];
            if o.weapon as usize == weapon {
                match WeaponToken::from_index(o.weapon) {
                    Some(WeaponToken::Carter) | Some(WeaponToken::Susan) | Some(WeaponToken::Swap) => {
                        assert(self@.orders[i as int].weapon == weapon);
                        return false;
                    },
                    _ => {},
                }
            }
            i = i + 1;
        }
        true
    }

    /// Draw, up to the allowed number of times, for an approved weapon to start
    /// the next combo.
    fn pick_weapon(&mut self)
        requires
            old(self).wf(),
            old(self).next_weapon is None,
            launch_room(old(self)@),
        ensures
            final(self).wf(),
            launch_room(final(self)@),
            final(self)@ == pick(old(self)@, PICK_TRIES as nat),
    {
        let ghost target = pick(self@, PICK_TRIES as nat);
        let mut tries: u32 = 0;
        while tries < PICK_TRIES
            invariant
                self.wf(),
                self.next_weapon is None,
                launch_room(self@),
                tries <= PICK_TRIES,
                target == pick(old(self)@, PICK_TRIES as nat),
                pick(self@, (PICK_TRIES - tries) as nat) == target,
            ensures
                self.wf(),
                launch_room(self@),
                self@ == target,
            decreases PICK_TRIES - tries,
        {
            let ghost before = self@;
            let n = self.rng.rand_below(34) as usize;
            proof {
                assert(self@ =~= Economy { rng: lcg_next(before.rng), ..before });
            }
            if self.purchase_approved(n) {
                self.next_weapon = Some(n);
                proof {
                    let e1 = Economy { rng: lcg_next(before.rng), ..before };
                    let k = (PICK_TRIES - tries) as nat;
                    assert(approved(e1, draw(lcg_next(before.rng)) % 34));
                    assert(pick(before, k) == Economy { next_weapon: Some(n as int), ..e1 });
                    assert(self@ =~= Economy { next_weapon: Some(n as int), ..e1 });
                }
                return;
            }
            tries = tries + 1;
        }
    }

    /// Buy the pending weapon and follow its chain while funds and arsenal
    /// allow; returns whether anything was bought.
    fn buy_combo(&mut self, carter: bool, in_bazaar: bool, funds: &mut i64, arsenal: &mut Arsenal) -> (any: bool)
        requires
            old(self).wf(),
            launch_room(old(self)@),
        ensures
            final(self).wf(),
            launch_room(final(self)@),
            (shop_of(final(self)@, *final(funds), final(arsenal)), any) == buy_chain(
                shop_of(old(self)@, *old(funds), old(arsenal)),
                carter,
                in_bazaar,
            ),
            old(arsenal).wf() ==> final(arsenal).wf(),
    {
        let ghost target = buy_chain(shop_of(self@, *funds, arsenal), carter, in_bazaar);
        let ghost aw = arsenal.wf();
        let mut any = false;
        while self.next_weapon.is_some()
            invariant_except_break
                buy_chain(shop_of(self@, *funds, arsenal), carter, in_bazaar).0 == target.0,
                target.1 == (any || buy_chain(shop_of(self@, *funds, arsenal), carter, in_bazaar).1),
            invariant
                self.wf(),
                launch_room(self@),
                aw ==> arsenal.wf(),
            ensures
                shop_of(self@, *funds, arsenal) == target.0,
                any == target.1,
            decreases *funds,
        {
            let w = match self.next_weapon {
                Some(w) => w,
                None => 0,
            };
            let tok = match WeaponToken::from_index(w as i32) {
                Some(t) => t,
                None => {
                    break;
                },
            };
            let price = Self::price_weapon(w, carter);
            if price > *funds {
                break;
            }
            let ghost before = shop_of(self@, *funds, arsenal);
            if !bazaar_buy(arsenal, funds, tok, carter, in_bazaar) {
                break;
            }
            proof {
                lemma_cost_bounds(tok, carter);
            }
            any = true;
            self.combo_cost = if self.combo_cost < 0 { price } else { self.combo_cost + price };
            let kind = match tok {
                WeaponToken::SoLong | WeaponToken::Mondale | WeaponToken::Carter => OrderKind::Launch,
                _ => OrderKind::Combo,
            };
            if tok == WeaponToken::Reagan {
                self.can_launch[WeaponToken::NiceDay.index()] = true;
            }
            self.commando.push(Order { kind, weapon: w as i32, line_no: self.next_launch, bazaar_no: -1i32, my_line_no: -1i32 });
            self.next_weapon = None;
            match tok {
                WeaponToken::NiceDay => {
                    self.can_launch[WeaponToken::NiceDay.index()] = false;
                    self.can_purchase[WeaponToken::NiceDay.index()] = false;
                    self.can_purchase[WeaponToken::Reagan.index()] = true;
                    self.next_weapon = Some(WeaponToken::Reagan.index());
                    self.next_launch = self.next_launch + 1;
                    if self.combo_cost >= BT_MAX_COMBO_COST {
                        self.combo_cost = BT_MAX_COMBO_COST - 1;
                    }
                },
                WeaponToken::Speedy => {
                    if self.combo_cost < BT_MAX_COMBO_COST {
                        self.next_weapon = Some(WeaponToken::Speedy.index());
                    }
                },
                WeaponToken::Reagan => {
                    self.can_purchase[WeaponToken::Reagan.index()] = false;
                },
                _ => {},
            }
            if (self.combo_cost >= BT_MIN_COMBO_COST && self.next_weapon.is_none()) || tok == WeaponToken::Susan {
                self.combo_cost = 0;
            }
            proof {
                let after = after_buy(before, w as int, carter);
                assert(self@.orders =~= after.e.orders);
                assert(self@.can_purchase =~= after.e.can_purchase);
                assert(self@.can_launch =~= after.e.can_launch);
                assert(self@ =~= after.e);
                assert(shop_of(self@, *funds, arsenal) =~= after);
                assert forall|i: int| 0 <= i < self@.orders.len() implies 0 <= #[trigger] self@.orders[i].weapon < 34 by {
                    if i < before.e.orders.len() {
                        assert(self@.orders[i] == before.e.orders[i]);
                    }
                }
            }
        }
        any
    }

    /// Turn each waiting member of the completed combo that may be launched into
    /// a launch order.
    fn promote(&mut self)
        requires
            old(self).wf(),
            old(self).combo_cost == 0,
        ensures
            final(self).wf(),
            final(self)@ == promoted(old(self)@),
    {
        let ghost e0 = self@;
        let ghost p = promoted(e0);
        let mut i: usize = 0;
        while i < self.commando.len()
            invariant
                self.combo_cost == 0,
                e0.combo_cost == 0,
                p == promoted(e0),
                self@ == (Economy { orders: self@.orders, ..e0 }),
                self.commando@.len() == e0.orders.len(),
                0 <= i <= self.commando@.len(),
                forall|j: int| 0 <= j < e0.orders.len() ==> 0 <= #[trigger] e0.orders[j].weapon < 34,
                forall|j: int| 0 <= j < i ==> #[trigger] self.commando@[j] == p.orders[j],
                forall|j: int| i <= j < self.commando@.len() ==> #[trigger] self.commando@[j] == e0.orders[j],
                economy_ok(e0),
            decreases self.commando@.len() - i,
        {
            let o = self.commando[i];
            if o.kind == OrderKind::Combo && self.can_launch[o.weapon as usize] {
                self.commando.set(i, Order { kind: OrderKind::Launch, ..o });
            }
            proof {
                assert(self@ =~= (Economy { orders: self@.orders, ..e0 }));
            }
            i = i + 1;
        }
        proof {
            assert(self@.orders =~= p.orders);
            assert(self@ =~= p);
        }
    }

    /// Shop the bazaar once, on entry: count the bazaar, allow Swap only while
    /// the computer's own stack is at row `BT_SWAPLINE` or higher, buy combos
    /// within budget with their orders queued, and promote a completed combo.
    /// Purchases go through `funds` and `arsenal` as the player's own would.
    pub fn go_shopping(&mut self, board: &Board, carter: bool, in_bazaar: bool, funds: &mut i64, arsenal: &mut Arsenal)
        requires
            old(self).wf(),
            board.wf(),
            old(self)@.bazaar_no < i32::MAX,
            old(self)@.next_launch < i32::MAX,
        ensures
            final(self).wf(),
            shop_of(final(self)@, *final(funds), final(arsenal)) == shopped(
                old(self)@,
                first_nonempty(board, 0),
                carter,
                in_bazaar,
                *old(funds) as int,
                old(arsenal).tokens(),
                old(arsenal).quantities(),
            ),
            old(arsenal).wf() ==> final(arsenal).wf(),
    {
        let ghost e_in = self@;
        self.bazaar_no = self.bazaar_no + 1;
        let top = board_top(board);
        self.can_purchase[WeaponToken::Swap.index()] = top <= BT_SWAPLINE;
        proof {
            assert(self@ =~= Economy {
                bazaar_no: e_in.bazaar_no + 1,
                can_purchase: e_in.can_purchase.update(token_index(WeaponToken::Swap), top <= BT_SWAPLINE),
                ..e_in
            });
        }
        let ghost s0 = shop_of(self@, *funds, arsenal);
        let ghost target = shop_passes(s0, carter, in_bazaar, SHOP_PASSES as nat);
        let ghost aw = arsenal.wf();
        let mut pass: u32 = 0;
        while pass < SHOP_PASSES
            invariant_except_break
                shop_passes(shop_of(self@, *funds, arsenal), carter, in_bazaar, (SHOP_PASSES - pass) as nat) == target,
            invariant
                self.wf(),
                launch_room(self@),
                pass <= SHOP_PASSES,
                aw ==> arsenal.wf(),
            ensures
                self.wf(),
                shop_of(self@, *funds, arsenal) == target,
                aw ==> arsenal.wf(),
            decreases SHOP_PASSES - pass,
        {
            if self.next_weapon.is_none() {
                self.pick_weapon();
                if self.next_weapon.is_none() {
                    break;
                }
            }
            let any = self.buy_combo(carter, in_bazaar, funds, arsenal);
            if !any || self.combo_cost == 0 {
                break;
            }
            pass = pass + 1;
        }
        if self.combo_cost == 0 {
            self.promote();
        }
    }

    /// Fire weapon index `weapon` from the first arsenal slot holding one. Hatter,
    /// FlipOut and Speedy are never fired. A Reagan that was found puts Reagan,
    /// Keating and NiceDay out of reach for fifty of the opponent's lines.
    fn launch_weapon(&mut self, weapon: usize, op_lines: i64, can_fire: bool, arsenal: &mut Arsenal, fired: &mut Vec<WeaponToken>)
        requires
            old(self).wf(),
            weapon < 34,
            op_lines <= i64::MAX - 50,
        ensures
            final(self).wf(),
            volley_of(final(self)@, 0, 0, final(arsenal), final(fired)@) == launched(
                volley_of(old(self)@, 0, 0, old(arsenal), old(fired)@),
                weapon as int,
                op_lines as int,
                can_fire,
            ),
            old(arsenal).wf() ==> final(arsenal).wf(),
    {
        let tok = match WeaponToken::from_index(weapon as i32) {
            Some(t) => t,
            None => {
                return;
            },
        };
        match tok {
            WeaponToken::Hatter | WeaponToken::FlipOut | WeaponToken::Speedy => {
                return;
            },
            _ => {},
        }
        proof {
            arsenal.lemma_len();
        }
        let mut slot: usize = 0;
        while slot < 10
            invariant
                0 <= slot <= 10,
                arsenal.tokens().len() == 10,
                arsenal.quantities().len() == 10,
                forall|j: int| 0 <= j < slot ==> !(arsenal.tokens()[j] == Some(tok) && arsenal.quantities()[j] > 0),
            ensures
                0 <= slot <= 10,
                slot < 10 ==> (arsenal.tokens()[slot as int] == Some(tok) && arsenal.quantities()[slot as int] > 0),
                forall|j: int| 0 <= j < slot ==> !(arsenal.tokens()[j] == Some(tok) && arsenal.quantities()[j] > 0),
            decreases 10 - slot,
        {
            let held = match arsenal.token(slot) {
                Some(t) => t == tok && arsenal.quantity(slot) > 0,
                None => false,
            };
            if held {
                break;
            }
            slot = slot + 1;
        }
        proof {
            lemma_first_held_is(arsenal.tokens(), arsenal.quantities(), tok, slot as int);
        }
        if slot >= 10 {
            return;
        }
        let ghost e0 = self@;
        match fire_slot(arsenal, slot, can_fire) {
            Some(t) => {
                fired.push(t);
            },
            None => {},
        }
        if tok == WeaponToken::Reagan {
            let resume = (op_lines + 50) as i32;
            self.can_purchase[WeaponToken::Reagan.index()] = false;
            self.can_purchase[WeaponToken::Keating.index()] = false;
            self.can_purchase[WeaponToken::NiceDay.index()] = false;
            self.can_launch[WeaponToken::NiceDay.index()] = false;
            self.commando.push(
                Order {
                    kind: OrderKind::CanPurchase,
                    weapon: WeaponToken::Reagan.index() as i32,
                    line_no: resume,
                    bazaar_no: -1i32,
                    my_line_no: -1i32,
                },
            );
            self.commando.push(
                Order {
                    kind: OrderKind::CanPurchase,
                    weapon: WeaponToken::Keating.index() as i32,
                    line_no: resume,
                    bazaar_no: -1i32,
                    my_line_no: -1i32,
                },
            );
            self.commando.push(
                Order {
                    kind: OrderKind::CanPurchase,
                    weapon: WeaponToken::NiceDay.index() as i32,
                    line_no: resume,
                    bazaar_no: -1i32,
                    my_line_no: -1i32,
                },
            );
            proof {
                let rs = (op_lines + 50) as i32;
                assert(self@.orders =~= e0.orders.push(unlock_order(WeaponToken::Reagan, rs)).push(
                    unlock_order(WeaponToken::Keating, rs),
                ).push(unlock_order(WeaponToken::NiceDay, rs)));
                assert(self@.can_purchase =~= e0.can_purchase.update(token_index(WeaponToken::Reagan), false).update(
                    token_index(WeaponToken::Keating), false).update(token_index(WeaponToken::NiceDay), false));
                assert(self@.can_launch =~= e0.can_launch.update(token_index(WeaponToken::NiceDay), false));
                assert forall|i: int| 0 <= i < self@.orders.len() implies 0 <= #[trigger] self@.orders[i].weapon < 34 by {
                    if i < e0.orders.len() {
                        assert(self@.orders[i] == e0.orders[i]);
                    }
                }
            }
        }
    }

    /// Fire the orders whose triggers are met, in queue order; call once per
    /// piece, before it is placed. Launches are held while the computer is
    /// Mirror-cursed (`mirror`); a later launch's line trigger is moved by
    /// however late the first launch of the pass fired. Weapons are fired from
    /// `arsenal` when `can_fire` (the game is running and outside the bazaar);
    /// the fired weapons are returned in order.
    pub fn activate_commando(&mut self, board: &Board, op_lines: i64, mirror: bool, can_fire: bool, arsenal: &mut Arsenal) -> (fired: Vec<WeaponToken>)
        requires
            old(self).wf(),
            board.wf(),
            i64::MIN + 0x1_0000_0000 <= op_lines <= i64::MAX - 0x1_0000_0000,
        ensures
            final(self).wf(),
            ({
                let v = run_orders(
                    volley_of(old(self)@, 0, -1, old(arsenal), Seq::empty()),
                    op_lines as int,
                    first_nonempty(board, 0),
                    mirror,
                    can_fire,
                );
                &&& final(self)@ == v.e
                &&& final(arsenal).tokens() == v.tokens
                &&& final(arsenal).quantities() == v.qty
                &&& fired@ == v.fired
            }),
            old(arsenal).wf() ==> final(arsenal).wf(),
    {
        let top = board_top(board) as i64;
        let ghost topi = first_nonempty(board, 0);
        let ghost target = run_orders(volley_of(self@, 0, -1, arsenal, Seq::empty()), op_lines as int, topi, mirror, can_fire);
        let ghost aw = arsenal.wf();
        let mut prev_line: i64 = -1;
        let mut fired: Vec<WeaponToken> = Vec::new();
        let mut i: usize = 0;
        while i < self.commando.len()
            invariant
                self.wf(),
                aw ==> arsenal.wf(),
                top == topi,
                i64::MIN + 0x1_0000_0000 <= op_lines <= i64::MAX - 0x1_0000_0000,
                0 <= i <= self.commando@.len(),
                -1 <= prev_line <= i32::MAX,
                run_orders(volley_of(self@, i as int, prev_line as int, arsenal, fired@), op_lines as int, topi, mirror, can_fire)
                    == target,
            decreases launch_count(self.commando@), self.commando@.len() - i,
        {
            let ghost v = volley_of(self@, i as int, prev_line as int, arsenal, fired@);
            proof {
                lemma_order_step_measure(v, op_lines as int, topi, mirror, can_fire);
            }
            let cur = self.commando[i];
            if prev_line > -1 && cur.line_no > -1 && cur.line_no as i64 > prev_line {
                let moved = Order { line_no: (cur.line_no as i64 - prev_line + op_lines) as i32, ..cur };
                self.commando.set(i, moved);
            }
            let o = self.commando[i];
            proof {
                assert(o == rescheduled(v.e.orders[v.i], v.prev_line, op_lines as int));
                assert(self@ =~= Economy { orders: v.e.orders.update(v.i, o), ..v.e });
            }
            let fires = (o.line_no > -1 && o.line_no as i64 <= op_lines) || (o.bazaar_no > -1 && o.bazaar_no <= self.bazaar_no)
                || (o.my_line_no > -1 && o.my_line_no as i64 >= top);
            if fires {
                match o.kind {
                    OrderKind::Launch => {
                        if !mirror {
                            if prev_line == -1 && o.line_no > -1 {
                                prev_line = o.line_no as i64;
                            }
                            self.commando.remove(i);
                            let ghost v1 = volley_of(self@, i as int, prev_line as int, arsenal, fired@);
                            self.launch_weapon(o.weapon as usize, op_lines, can_fire, arsenal, &mut fired);
                            proof {
                                assert(volley_of(self@, i as int, prev_line as int, arsenal, fired@) =~= launched(
                                    v1,
                                    o.weapon as int,
                                    op_lines as int,
                                    can_fire,
                                ));
                            }
                            continue;
                        }
                    },
                    OrderKind::CanPurchase => {
                        self.can_purchase[o.weapon as usize] = true;
                        self.commando.remove(i);
                        proof {
                            assert(self@.can_purchase =~= v.e.can_purchase.update(o.weapon as int, true));
                        }
                        continue;
                    },
                    OrderKind::Combo => {},
                }
            }
            i = i + 1;
        }
        fired
    }
}

} // verus!
