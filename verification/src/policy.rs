//! The networked bots' weapon policy: which weapons to buy in the bazaar and
//! which arsenal slot to launch, given what can be seen of the opponent.
//!
//! A spy is stocked first for intel, then good-value offensive and economy
//! weapons in priority order; launches activate a spy first, fire board-raisers
//! at an opponent stacked high, and otherwise harass or drain funds. Weapons
//! that would help the victim or backfire are never bought or launched.
//! Arsenal slots are given as weapon indices, -1 for an empty slot.

use vstd::prelude::*;
use crate::weapons::{WeaponToken, price_spec, token_at, weapon_price};

verus! {

/// The token an arsenal slot's index names (`None` for an empty slot or an
/// index out of range).
pub open spec fn token_of(idx: i32) -> Option<WeaponToken> {
    if 0 <= idx < 34 {
        Some(token_at(idx as int))
    } else {
        None
    }
}

/// Map an arsenal slot's weapon index (-1 = empty) to its token.
pub fn token_from_index(idx: i32) -> (t: Option<WeaponToken>)
    ensures
        t == token_of(idx),
{
    if idx < 0 {
        return None;
    }
    WeaponToken::from_index(idx)
}

/// Strategic class of a weapon from the attacker's point of view.
#[derive(Clone, Copy, PartialEq, Eq, Debug, Structural)]
pub enum WClass {
    /// Raises the victim's board at once; best against a stack already high.
    Garbage,
    /// Ongoing harassment: bad pieces, scrambled controls, extra speed.
    Harass,
    /// Drains or denies the victim's funds.
    Economy,
    /// A spy: launching it reveals the opponent's board.
    Spy,
    /// Never launched: helps the victim, cuts both ways, or is defensive.
    Skip,
}

/// The class of each weapon.
pub open spec fn class_of(t: WeaponToken) -> WClass {
    match t {
        WeaponToken::RiseUp | WeaponToken::Lawyers | WeaponToken::Bottle | WeaponToken::Blind | WeaponToken::PieceIt
        | WeaponToken::Bug | WeaponToken::FallOut | WeaponToken::FourByFour | WeaponToken::Twilight => WClass::Garbage,
        WeaponToken::FearedWeird | WeaponToken::Hatter | WeaponToken::Speedy | WeaponToken::SoLong | WeaponToken::NoDice
        | WeaponToken::Slick | WeaponToken::Broken | WeaponToken::Force | WeaponToken::NoSlide | WeaponToken::Upbyside
        | WeaponToken::FlipOut => WClass::Harass,
        WeaponToken::Mondale | WeaponToken::Keating | WeaponToken::Reagan | WeaponToken::Carter => WClass::Economy,
        WeaponToken::Ames | WeaponToken::Ace | WeaponToken::Condor => WClass::Spy,
        WeaponToken::Swap | WeaponToken::Susan | WeaponToken::Mirror | WeaponToken::Meadow | WeaponToken::NiceDay
        | WeaponToken::Missing | WeaponToken::Gimp => WClass::Skip,
    }
}

/// Classify a weapon for bot strategy.
pub fn class(t: WeaponToken) -> (c: WClass)
    ensures
        c == class_of(t),
{
    match t {
        WeaponToken::RiseUp | WeaponToken::Lawyers | WeaponToken::Bottle | WeaponToken::Blind | WeaponToken::PieceIt
        | WeaponToken::Bug | WeaponToken::FallOut | WeaponToken::FourByFour | WeaponToken::Twilight => WClass::Garbage,
        WeaponToken::FearedWeird | WeaponToken::Hatter | WeaponToken::Speedy | WeaponToken::SoLong | WeaponToken::NoDice
        | WeaponToken::Slick | WeaponToken::Broken | WeaponToken::Force | WeaponToken::NoSlide | WeaponToken::Upbyside
        | WeaponToken::FlipOut => WClass::Harass,
        WeaponToken::Mondale | WeaponToken::Keating | WeaponToken::Reagan | WeaponToken::Carter => WClass::Economy,
        WeaponToken::Ames | WeaponToken::Ace | WeaponToken::Condor => WClass::Spy,
        WeaponToken::Swap | WeaponToken::Susan | WeaponToken::Mirror | WeaponToken::Meadow | WeaponToken::NiceDay
        | WeaponToken::Missing | WeaponToken::Gimp => WClass::Skip,
    }
}

/// Buy priority: good-value offensive and economy weapons, roughly best first.
pub open spec fn buy_priority() -> Seq<WeaponToken> {
    seq![
        WeaponToken::RiseUp,
        WeaponToken::Upbyside,
        WeaponToken::Bottle,
        WeaponToken::Mondale,
        WeaponToken::PieceIt,
        WeaponToken::SoLong,
        WeaponToken::Speedy,
        WeaponToken::Broken,
        WeaponToken::Force,
        WeaponToken::Bug,
        WeaponToken::Lawyers,
        WeaponToken::Hatter,
        WeaponToken::Blind,
        WeaponToken::FearedWeird,
        WeaponToken::FourByFour,
        WeaponToken::Keating,
        WeaponToken::Twilight,
        WeaponToken::Slick,
        WeaponToken::NoDice,
    ]
}

fn priority_at(k: usize) -> (t: WeaponToken)
    requires
        k < 19,
    ensures
        t == buy_priority()[k as int],
{
    match k {
        0 => WeaponToken::RiseUp,
        1 => WeaponToken::Upbyside,
        2 => WeaponToken::Bottle,
        3 => WeaponToken::Mondale,
        4 => WeaponToken::PieceIt,
        5 => WeaponToken::SoLong,
        6 => WeaponToken::Speedy,
        7 => WeaponToken::Broken,
        8 => WeaponToken::Force,
        9 => WeaponToken::Bug,
        10 => WeaponToken::Lawyers,
        11 => WeaponToken::Hatter,
        12 => WeaponToken::Blind,
        13 => WeaponToken::FearedWeird,
        14 => WeaponToken::FourByFour,
        15 => WeaponToken::Keating,
        16 => WeaponToken::Twilight,
        17 => WeaponToken::Slick,
        _ => WeaponToken::NoDice,
    }
}

/// A weapon's price, doubled while Carter is active.
pub open spec fn cost(t: WeaponToken, carter: bool) -> int {
    if carter {
        price_spec(t) * 2
    } else {
        price_spec(t) as int
    }
}

/// A weapon's price, doubled while Carter is active.
pub fn price_of(t: WeaponToken, carter: bool) -> (p: i64)
    ensures
        p == cost(t, carter),
{
    let p = weapon_price(t) as i64;
    if carter {
        p * 2
    } else {
        p
    }
}

/// The slot index `idx` names a weapon of class `cls`.
pub open spec fn slot_class(idx: i32, cls: WClass) -> bool {
    match token_of(idx) {
        Some(t) => class_of(t) == cls,
        None => false,
    }
}

/// Some slot of `arsenal` holds a spy.
pub open spec fn holds_spy(arsenal: Seq<i32>) -> bool {
    exists|k: int| 0 <= k < arsenal.len() && #[trigger] slot_class(arsenal[k], WClass::Spy)
}

fn arsenal_has_spy(arsenal: &[i32]) -> (b: bool)
    ensures
        b == holds_spy(arsenal@),
{
    let mut k: usize = 0;
    while k < arsenal.len()
        invariant
            0 <= k <= arsenal@.len(),
            forall|m: int| 0 <= m < k ==> !#[trigger] slot_class(arsenal@[m], WClass::Spy),
        decreases arsenal@.len() - k,
    {
        if let Some(t) = token_from_index(arsenal[k]) {
            if class(t) == WClass::Spy {
                assert(slot_class(arsenal@[k as int], WClass::Spy));
                return true;
            }
        }
        k = k + 1;
    }
    false
}

/// Number of empty slots (-1 or any negative index) among `arsenal[..n]`.
pub open spec fn free_slots(arsenal: Seq<i32>, n: int) -> int
    decreases n,
{
    if n <= 0 {
        0
    } else {
        free_slots(arsenal, n - 1) + if arsenal[n - 1] < 0 { 1int } else { 0int }
    }
}

/// One pass down the priority list from position `k`: while slots remain,
/// buy each weapon the budget still covers. Gives the buys, the budget left
/// and the slots left.
pub open spec fn pass_from(k: int, budget: int, slots: int, carter: bool) -> (Seq<WeaponToken>, int, int)
    decreases 19 - k,
{
    if k < 0 || k >= 19 || slots <= 0 {
        (seq![], budget, slots)
    } else {
        let t = buy_priority()[k];
        let p = cost(t, carter);
        if budget >= p {
            let r = pass_from(k + 1, budget - p, slots - 1, carter);
            (seq![t] + r.0, r.1, r.2)
        } else {
            pass_from(k + 1, budget, slots, carter)
        }
    }
}

/// A pass uses one slot per buy and spends exactly the buys' prices.
pub proof fn lemma_pass_accounting(k: int, budget: int, slots: int, carter: bool)
    ensures
        pass_from(k, budget, slots, carter).2 == slots - pass_from(k, budget, slots, carter).0.len(),
        pass_from(k, budget, slots, carter).1 == budget - total_cost(pass_from(k, budget, slots, carter).0, carter),
        pass_from(k, budget, slots, carter).0.len() <= (if slots > 0 { slots } else { 0 }),
        pass_from(k, budget, slots, carter).0.len() > 0 ==> pass_from(k, budget, slots, carter).1 >= 0,
        forall|i: int| 0 <= i < pass_from(k, budget, slots, carter).0.len() ==> {
            &&& class_of(#[trigger] pass_from(k, budget, slots, carter).0[i]) != WClass::Skip
            &&& class_of(pass_from(k, budget, slots, carter).0[i]) != WClass::Spy
        },
    decreases 19 - k,
{
    if k < 0 || k >= 19 || slots <= 0 {
    } else {
        let t = buy_priority()[k];
        let p = cost(t, carter);
        if budget >= p {
            lemma_pass_accounting(k + 1, budget - p, slots - 1, carter);
            let r = pass_from(k + 1, budget - p, slots - 1, carter);
            assert((seq![t] + r.0).drop_first() =~= r.0);
            assert(total_cost(seq![t] + r.0, carter) == p + total_cost(r.0, carter));
            assert(forall|i: int| 0 <= i < r.0.len() ==> (seq![t] + r.0)[i + 1] == r.0[i]);
        } else {
            lemma_pass_accounting(k + 1, budget, slots, carter);
        }
    }
}

/// Total price of `plan`.
pub open spec fn total_cost(plan: Seq<WeaponToken>, carter: bool) -> int
    decreases plan.len(),
{
    if plan.len() == 0 {
        0
    } else {
        cost(plan[0], carter) + total_cost(plan.drop_first(), carter)
    }
}

/// Passes down the priority list until one buys nothing or the slots run out.
pub open spec fn passes(budget: int, slots: int, carter: bool) -> Seq<WeaponToken>
    decreases slots,
{
    let r = pass_from(0, budget, slots, carter);
    if r.0.len() == 0 || r.2 <= 0 || slots <= 0 {
        r.0
    } else {
        proof {
            lemma_pass_accounting(0, budget, slots, carter);
        }
        r.0 + passes(r.1, r.2, carter)
    }
}

/// The spy bought first when none is held: the first of Ace, Ames and Condor
/// that the budget covers, if a slot is free.
pub open spec fn spy_pick(budget: int, slots: int, held: bool, carter: bool) -> Option<WeaponToken> {
    if held || slots <= 0 {
        None
    } else if budget >= cost(WeaponToken::Ace, carter) {
        Some(WeaponToken::Ace)
    } else if budget >= cost(WeaponToken::Ames, carter) {
        Some(WeaponToken::Ames)
    } else if budget >= cost(WeaponToken::Condor, carter) {
        Some(WeaponToken::Condor)
    } else {
        None
    }
}

/// The bazaar plan for `funds`, `slots` free slots, whether a spy is already
/// held, and whether Carter doubles the prices.
pub open spec fn plan_spec(funds: int, slots: int, held: bool, carter: bool) -> Seq<WeaponToken> {
    match spy_pick(funds, slots, held, carter) {
        Some(s) => seq![s] + passes(funds - cost(s, carter), slots - 1, carter),
        None => passes(funds, slots, carter),
    }
}

fn pick_spy(budget: i64, slots: i32, carter: bool) -> (r: Option<WeaponToken>)
    ensures
        r == spy_pick(budget as int, slots as int, false, carter),
{
    let spies = [WeaponToken::Ace, WeaponToken::Ames, WeaponToken::Condor];
    let mut n: usize = 0;
    while n < 3
        invariant
            0 <= n <= 3,
            spies@ == seq![WeaponToken::Ace, WeaponToken::Ames, WeaponToken::Condor],
            forall|m: int| 0 <= m < n ==> !(slots > 0 && budget >= cost(#[trigger] spies@[m], carter)),
        decreases 3 - n,
    {
        let spy = spies[n];
        if slots > 0 && budget >= price_of(spy, carter) {
            return Some(spy);
        }
        n = n + 1;
    }
    None
}

/// Decide what to buy this bazaar visit, in order: a spy first when none is
/// held, then passes down the priority list (diversifying first, then
/// duplicating) until the arsenal is full or nothing more is affordable.
pub fn buy_plan(funds: i64, arsenal: &[i32], carter: bool) -> (plan: Vec<WeaponToken>)
    requires
        arsenal@.len() <= i32::MAX,
    ensures
        plan@ == plan_spec(funds as int, free_slots(arsenal@, arsenal@.len() as int), holds_spy(arsenal@), carter),
        free_slots(arsenal@, arsenal@.len() as int) - plan@.len() <= 0 || forall|j: int|
            0 <= j < 19 ==> cost(#[trigger] buy_priority()[j], carter) > funds - total_cost(plan@, carter),
{
    let mut budget = funds;
    let mut slots: i32 = 0;
    let mut k: usize = 0;
    while k < arsenal.len()
        invariant
            0 <= k <= arsenal@.len() <= i32::MAX,
            slots == free_slots(arsenal@, k as int),
            0 <= slots <= k,
        decreases arsenal@.len() - k,
    {
        if arsenal[k] < 0 {
            slots = slots + 1;
        }
        k = k + 1;
    }
    let ghost target = plan_spec(funds as int, slots as int, holds_spy(arsenal@), carter);
    let mut plan: Vec<WeaponToken> = Vec::new();
    let held = arsenal_has_spy(arsenal);
    if !held {
        if let Some(spy) = pick_spy(budget, slots, carter) {
            budget = budget - price_of(spy, carter);
            slots = slots - 1;
            plan.push(spy);
        }
    }
    assert(plan@ + passes(budget as int, slots as int, carter) =~= target);
    loop
        invariant
            plan@ + passes(budget as int, slots as int, carter) == target,
            slots >= 0,
            plan@.len() > 0 ==> budget >= 0,
            plan@.len() == 0 ==> budget == funds,
        ensures
            plan@ == target,
        decreases slots,
    {
        let ghost b0 = budget as int;
        let ghost s0 = slots as int;
        let ghost p0 = plan@;
        let mut bought_any = false;
        let mut k: usize = 0;
        while k < 19
            invariant
                0 <= k <= 19,
                slots >= 0,
                plan@ + pass_from(k as int, budget as int, slots as int, carter).0 == p0 + pass_from(0, b0, s0, carter).0,
                pass_from(k as int, budget as int, slots as int, carter).1 == pass_from(0, b0, s0, carter).1,
                pass_from(k as int, budget as int, slots as int, carter).2 == pass_from(0, b0, s0, carter).2,
                bought_any == (plan@.len() > p0.len()),
                plan@.len() >= p0.len(),
                plan@.len() > 0 ==> budget >= 0,
                plan@.len() == 0 ==> budget == funds,
            ensures
                k >= 19 || slots <= 0,
                plan@ + pass_from(k as int, budget as int, slots as int, carter).0 == p0 + pass_from(0, b0, s0, carter).0,
                pass_from(k as int, budget as int, slots as int, carter).1 == pass_from(0, b0, s0, carter).1,
                pass_from(k as int, budget as int, slots as int, carter).2 == pass_from(0, b0, s0, carter).2,
                bought_any == (plan@.len() > p0.len()),
                slots >= 0,
                plan@.len() > 0 ==> budget >= 0,
                plan@.len() == 0 ==> budget == funds,
            decreases 19 - k,
        {
            if slots <= 0 {
                break;
            }
            let ghost kb = budget as int;
            let ghost ks = slots as int;
            let t = priority_at(k);
            let p = price_of(t, carter);
            if budget >= p {
                budget = budget - p;
                slots = slots - 1;
                plan.push(t);
                bought_any = true;
                proof {
                    let r = pass_from(k + 1, budget as int, slots as int, carter);
                    assert(pass_from(k as int, kb, ks, carter).0 == seq![t] + r.0);
                    assert(plan@ + r.0 =~= p0 + pass_from(0, b0, s0, carter).0);
                }
            }
            k = k + 1;
        }
        proof {
            assert(pass_from(k as int, budget as int, slots as int, carter).0.len() == 0);
            assert(plan@ =~= p0 + pass_from(0, b0, s0, carter).0);
            lemma_pass_accounting(0, b0, s0, carter);
        }
        if !bought_any || slots <= 0 {
            proof {
                assert(passes(b0, s0, carter) == pass_from(0, b0, s0, carter).0);
                assert(plan@ =~= p0 + passes(b0, s0, carter));
            }
            break;
        }
        proof {
            assert(passes(b0, s0, carter) == pass_from(0, b0, s0, carter).0 + passes(budget as int, slots as int, carter));
            assert(plan@ + passes(budget as int, slots as int, carter) =~= p0 + passes(b0, s0, carter));
        }
    }
    assert(plan@ =~= target);
    proof {
        lemma_plan_maximal(funds as int, free_slots(arsenal@, arsenal@.len() as int), holds_spy(arsenal@), carter);
    }
    plan
}

proof fn lemma_total_cost_concat(a: Seq<WeaponToken>, b: Seq<WeaponToken>, carter: bool)
    ensures
        total_cost(a + b, carter) == total_cost(a, carter) + total_cost(b, carter),
    decreases a.len(),
{
    if a.len() > 0 {
        lemma_total_cost_concat(a.drop_first(), b, carter);
        assert((a + b).drop_first() =~= a.drop_first() + b);
    } else {
        assert(a + b =~= b);
    }
}

proof fn lemma_total_cost_nonneg(a: Seq<WeaponToken>, carter: bool)
    ensures
        total_cost(a, carter) >= 0,
    decreases a.len(),
{
    if a.len() > 0 {
        lemma_total_cost_nonneg(a.drop_first(), carter);
    }
}

proof fn lemma_passes_within_means(budget: int, slots: int, carter: bool)
    ensures
        passes(budget, slots, carter).len() <= (if slots > 0 { slots } else { 0 }),
        passes(budget, slots, carter).len() > 0 ==> total_cost(passes(budget, slots, carter), carter) <= budget,
        forall|i: int| 0 <= i < passes(budget, slots, carter).len() ==> {
            &&& class_of(#[trigger] passes(budget, slots, carter)[i]) != WClass::Skip
            &&& class_of(passes(budget, slots, carter)[i]) != WClass::Spy
        },
    decreases slots,
{
    lemma_pass_accounting(0, budget, slots, carter);
    let r = pass_from(0, budget, slots, carter);
    lemma_total_cost_nonneg(r.0, carter);
    if r.0.len() == 0 || r.2 <= 0 || slots <= 0 {
    } else {
        lemma_passes_within_means(r.1, r.2, carter);
        let rest = passes(r.1, r.2, carter);
        lemma_total_cost_concat(r.0, rest, carter);
        lemma_total_cost_nonneg(rest, carter);
        assert forall|i: int| 0 <= i < (r.0 + rest).len() implies {
            &&& class_of(#[trigger] (r.0 + rest)[i]) != WClass::Skip
            &&& class_of((r.0 + rest)[i]) != WClass::Spy
        } by {
            if i >= r.0.len() {
                assert((r.0 + rest)[i] == rest[i - r.0.len()]);
            }
        }
    }
}

/// The bazaar plan stays within the bot's means and never buys a weapon that
/// backfires: it fits the free slots, costs at most the funds, holds no
/// Skip-class weapon, holds a spy only as its first buy, and starts with a spy
/// whenever none is held, a slot is free and the funds cover the cheapest spy.
pub proof fn lemma_plan_within_means(funds: int, slots: int, held: bool, carter: bool)
    ensures
        plan_spec(funds, slots, held, carter).len() <= (if slots > 0 { slots } else { 0 }),
        plan_spec(funds, slots, held, carter).len() > 0 ==> total_cost(plan_spec(funds, slots, held, carter), carter) <= funds,
        forall|i: int| 0 <= i < plan_spec(funds, slots, held, carter).len() ==> class_of(#[trigger] plan_spec(funds, slots, held, carter)[i]) != WClass::Skip,
        forall|i: int| 1 <= i < plan_spec(funds, slots, held, carter).len() ==> class_of(#[trigger] plan_spec(funds, slots, held, carter)[i]) != WClass::Spy,
        !held && slots > 0 && funds >= cost(WeaponToken::Ames, carter) ==> plan_spec(funds, slots, held, carter).len() > 0 && class_of(
            plan_spec(funds, slots, held, carter)[0],
        ) == WClass::Spy,
{
    match spy_pick(funds, slots, held, carter) {
        Some(sp) => {
            let rest = passes(funds - cost(sp, carter), slots - 1, carter);
            lemma_passes_within_means(funds - cost(sp, carter), slots - 1, carter);
            lemma_total_cost_concat(seq![sp], rest, carter);
            lemma_total_cost_nonneg(rest, carter);
            assert(total_cost(seq![sp], carter) == cost(sp, carter)) by {
                assert(seq![sp].drop_first() =~= Seq::<WeaponToken>::empty());
                assert(total_cost(Seq::<WeaponToken>::empty(), carter) == 0);
                assert(seq![sp][0] == sp);
            }
            assert forall|i: int| 1 <= i < (seq![sp] + rest).len() implies class_of(#[trigger] (seq![sp] + rest)[i]) != WClass::Spy by {
                assert((seq![sp] + rest)[i] == rest[i - 1]);
            }
            assert forall|i: int| 0 <= i < (seq![sp] + rest).len() implies class_of(#[trigger] (seq![sp] + rest)[i]) != WClass::Skip by {
                if i >= 1 {
                    assert((seq![sp] + rest)[i] == rest[i - 1]);
                }
            }
        },
        None => {
            lemma_passes_within_means(funds, slots, carter);
        },
    }
}

/// A pass from position `k` with free slots that buys nothing finds every
/// weapon from `k` on too dear for the budget.
proof fn lemma_pass_none_affordable(k: int, budget: int, slots: int, carter: bool)
    requires
        0 <= k,
        slots > 0,
        pass_from(k, budget, slots, carter).0.len() == 0,
    ensures
        forall|j: int| k <= j < 19 ==> cost(#[trigger] buy_priority()[j], carter) > budget,
    decreases 19 - k,
{
    if k < 19 {
        let t = buy_priority()[k];
        if budget >= cost(t, carter) {
            assert((seq![t] + pass_from(k + 1, budget - cost(t, carter), slots - 1, carter).0).len() > 0);
        } else {
            lemma_pass_none_affordable(k + 1, budget, slots, carter);
        }
    }
}

/// Repeated passes spend as far as they can: when they end, either no slot
/// is free or every weapon on the priority list costs more than what is left.
proof fn lemma_passes_maximal(budget: int, slots: int, carter: bool)
    ensures
        slots - passes(budget, slots, carter).len() <= 0 || forall|j: int|
            0 <= j < 19 ==> cost(#[trigger] buy_priority()[j], carter) > budget - total_cost(passes(budget, slots, carter), carter),
    decreases slots,
{
    lemma_pass_accounting(0, budget, slots, carter);
    let r = pass_from(0, budget, slots, carter);
    if slots <= 0 {
    } else if r.0.len() == 0 {
        lemma_pass_none_affordable(0, budget, slots, carter);
        assert(total_cost(r.0, carter) == 0);
    } else if r.2 <= 0 {
    } else {
        lemma_passes_maximal(r.1, r.2, carter);
        let rest = passes(r.1, r.2, carter);
        lemma_total_cost_concat(r.0, rest, carter);
        assert(passes(budget, slots, carter) == r.0 + rest);
    }
}

/// The bazaar plan is maximal: once it is bought, either no slot is free or
/// no weapon on the priority list is affordable with the funds left.
pub proof fn lemma_plan_maximal(funds: int, slots: int, held: bool, carter: bool)
    ensures
        slots - plan_spec(funds, slots, held, carter).len() <= 0 || forall|j: int|
            0 <= j < 19 ==> cost(#[trigger] buy_priority()[j], carter) > funds - total_cost(plan_spec(funds, slots, held, carter), carter),
{
    match spy_pick(funds, slots, held, carter) {
        Some(sp) => {
            let rest = passes(funds - cost(sp, carter), slots - 1, carter);
            lemma_passes_maximal(funds - cost(sp, carter), slots - 1, carter);
            lemma_total_cost_concat(seq![sp], rest, carter);
            assert(total_cost(seq![sp], carter) == cost(sp, carter)) by {
                assert(seq![sp].drop_first() =~= Seq::<WeaponToken>::empty());
                assert(total_cost(Seq::<WeaponToken>::empty(), carter) == 0);
            }
        },
        None => {
            lemma_passes_maximal(funds, slots, carter);
        },
    }
}

/// The first slot at or after `k` holding a weapon of class `cls`.
pub open spec fn first_slot(arsenal: Seq<i32>, cls: WClass, k: int) -> Option<int>
    decreases arsenal.len() - k,
{
    if k < 0 || k >= arsenal.len() {
        None
    } else if slot_class(arsenal[k], cls) {
        Some(k)
    } else {
        first_slot(arsenal, cls, k + 1)
    }
}

/// The slot to launch: an idle spy's slot first (when no spy of ours is
/// active), then garbage when the opponent is stacked high, otherwise
/// harassment, then a fund drain, then garbage; `None` to hold fire.
pub open spec fn choice_spec(arsenal: Seq<i32>, spy_active: bool, opp_high: bool) -> Option<int> {
    if !spy_active && first_slot(arsenal, WClass::Spy, 0) is Some {
        first_slot(arsenal, WClass::Spy, 0)
    } else if opp_high && first_slot(arsenal, WClass::Garbage, 0) is Some {
        first_slot(arsenal, WClass::Garbage, 0)
    } else if first_slot(arsenal, WClass::Harass, 0) is Some {
        first_slot(arsenal, WClass::Harass, 0)
    } else if first_slot(arsenal, WClass::Economy, 0) is Some {
        first_slot(arsenal, WClass::Economy, 0)
    } else {
        first_slot(arsenal, WClass::Garbage, 0)
    }
}

fn find_class(arsenal: &[i32], want: WClass) -> (r: Option<usize>)
    ensures
        r matches Some(k) ==> first_slot(arsenal@, want, 0) == Some(k as int),
        r is None ==> first_slot(arsenal@, want, 0) is None,
{
    let mut k: usize = 0;
    while k < arsenal.len()
        invariant
            0 <= k <= arsenal@.len(),
            first_slot(arsenal@, want, 0) == first_slot(arsenal@, want, k as int),
        decreases arsenal@.len() - k,
    {
        let hit = match token_from_index(arsenal[k]) {
            Some(t) => class(t) == want,
            None => false,
        };
        if hit {
            return Some(k);
        }
        k = k + 1;
    }
    None
}

/// Choose an arsenal slot to launch, or `None` to hold this beat.
/// `spy_active`: a spy of ours is revealing the opponent; `opp_high`: the
/// opponent's stack is dangerously tall.
pub fn launch_choice(arsenal: &[i32], spy_active: bool, opp_high: bool) -> (r: Option<usize>)
    ensures
        r matches Some(k) ==> choice_spec(arsenal@, spy_active, opp_high) == Some(k as int),
        r is None ==> choice_spec(arsenal@, spy_active, opp_high) is None,
{
    if !spy_active {
        if let Some(s) = find_class(arsenal, WClass::Spy) {
            return Some(s);
        }
    }
    if opp_high {
        if let Some(s) = find_class(arsenal, WClass::Garbage) {
            return Some(s);
        }
    }
    if let Some(s) = find_class(arsenal, WClass::Harass) {
        return Some(s);
    }
    if let Some(s) = find_class(arsenal, WClass::Economy) {
        return Some(s);
    }
    if let Some(s) = find_class(arsenal, WClass::Garbage) {
        return Some(s);
    }
    None
}

proof fn lemma_first_slot_hits(arsenal: Seq<i32>, cls: WClass, k: int)
    ensures
        first_slot(arsenal, cls, k) matches Some(i) ==> k <= i < arsenal.len() && slot_class(arsenal[i], cls),
    decreases arsenal.len() - k,
{
    if 0 <= k < arsenal.len() && !slot_class(arsenal[k], cls) {
        lemma_first_slot_hits(arsenal, cls, k + 1);
    }
}

/// A launch never fires a Skip-class weapon: the chosen slot is in range and
/// holds a spy, garbage, harassment or a fund drain.
pub proof fn lemma_launch_never_skips(arsenal: Seq<i32>, spy_active: bool, opp_high: bool)
    ensures
        choice_spec(arsenal, spy_active, opp_high) matches Some(i) ==> 0 <= i < arsenal.len() && !slot_class(arsenal[i], WClass::Skip)
            && token_of(arsenal[i]) is Some,
{
    lemma_first_slot_hits(arsenal, WClass::Spy, 0);
    lemma_first_slot_hits(arsenal, WClass::Garbage, 0);
    lemma_first_slot_hits(arsenal, WClass::Harass, 0);
    lemma_first_slot_hits(arsenal, WClass::Economy, 0);
}

/// A spied grid square: the render id at `(x, y)` of a row-major grid `w` wide.
pub open spec fn spied(grid: Seq<i32>, w: int, x: int, y: int) -> i32 {
    grid[y * w + x]
}

/// The first row at or below `y` of a spied `w` by `h` grid that shows a box
/// (a render id of 0 or more), or `h` when none does.
pub open spec fn first_shown(grid: Seq<i32>, w: int, h: int, y: int) -> int
    decreases h - y,
{
    if y < 0 || y >= h {
        h
    } else if exists|x: int| 0 <= x < w && spied(grid, w, x, y) >= 0 {
        y
    } else {
        first_shown(grid, w, h, y + 1)
    }
}

proof fn lemma_first_shown(grid: Seq<i32>, w: int, h: int, t: int, y: int)
    requires
        0 <= y <= t <= h,
        forall|x: int, r: int| 0 <= x < w && 0 <= r < t ==> spied(grid, w, x, r) < 0,
        t < h ==> exists|x: int| 0 <= x < w && spied(grid, w, x, t) >= 0,
    ensures
        first_shown(grid, w, h, y) == t,
    decreases t - y,
{
    if y < t {
        assert(!(exists|x: int| 0 <= x < w && spied(grid, w, x, y) >= 0));
        lemma_first_shown(grid, w, h, t, y + 1);
    }
}

/// Whether a spied opponent grid (render ids, row-major, `w` by `h`, empty
/// squares negative) is stacked high enough for a board-raiser: its stack fills
/// at least three fifths of the height. A grid too short for its size, or a
/// degenerate size, is not high.
pub fn opponent_is_high(grid: &[i32], w: i32, h: i32) -> (high: bool)
    requires
        w <= 0 || h <= 0 || w * h <= i32::MAX,
    ensures
        high == (w > 0 && h > 0 && grid@.len() >= w * h && 5 * (h - first_shown(grid@, w as int, h as int, 0)) >= 3
            * h),
{
    if w <= 0 || h <= 0 || grid.len() < (w * h) as usize {
        return false;
    }
    let mut min_top = h;
    let mut x: i32 = 0;
    while x < w
        invariant
            0 < w,
            0 < h,
            w * h <= i32::MAX,
            grid@.len() >= w * h,
            0 <= x <= w,
            0 <= min_top <= h,
            forall|x2: int, y2: int| 0 <= x2 < x && 0 <= y2 < min_top ==> #[trigger] spied(grid@, w as int, x2, y2) < 0,
            min_top < h ==> exists|x2: int| 0 <= x2 < w && spied(grid@, w as int, x2, min_top as int) >= 0,
        decreases w - x,
    {
        let mut y: i32 = 0;
        while y < h
            invariant
                0 < w,
                0 < h,
                w * h <= i32::MAX,
                grid@.len() >= w * h,
                0 <= x < w,
                0 <= y <= h,
                0 <= min_top <= h,
                forall|x2: int, y2: int| 0 <= x2 < x && 0 <= y2 < min_top ==> #[trigger] spied(grid@, w as int, x2, y2) < 0,
                forall|y2: int| 0 <= y2 < y ==> #[trigger] spied(grid@, w as int, x as int, y2) < 0,
                min_top < h ==> exists|x2: int| 0 <= x2 < w && spied(grid@, w as int, x2, min_top as int) >= 0,
            ensures
                0 <= min_top <= h,
                forall|x2: int, y2: int| 0 <= x2 <= x && 0 <= y2 < min_top ==> #[trigger] spied(grid@, w as int, x2, y2) < 0,
                min_top < h ==> exists|x2: int| 0 <= x2 < w && spied(grid@, w as int, x2, min_top as int) >= 0,
            decreases h - y,
        {
            proof {
                crate::board::lemma_index(w as int, h as int, x as int, y as int);
            }
            let v = grid[(y * w + x) as usize];
            if v >= 0 {
                assert(spied(grid@, w as int, x as int, y as int) >= 0);
                if y < min_top {
                    min_top = y;
                }
                break;
            }
            y = y + 1;
        }
        x = x + 1;
    }
    proof {
        lemma_first_shown(grid@, w as int, h as int, min_top as int, 0);
    }
    5 * (h as i64 - min_top as i64) >= 3 * h as i64
}

} // verus!
