//! One player's dealings with the bazaar: buying and selling weapons against
//! their funds (at double price while Carter is on them) and firing a weapon
//! from an arsenal slot at the opponent.

use vstd::prelude::*;
use crate::arsenal::{Arsenal, first_fit, first_held, use_slot_spec};
use crate::policy::{cost, price_of};
use crate::weapons::WeaponToken;

verus! {

/// Whether buying `t` goes through: the bazaar is open, the funds cover the
/// (Carter-adjusted) price, and the slot a purchase lands in (one already
/// holding `t`, else the first empty one; see `first_fit`) can take one more.
pub open spec fn can_buy(
    tokens: Seq<Option<WeaponToken>>,
    qty: Seq<u16>,
    funds: int,
    t: WeaponToken,
    carter: bool,
    in_bazaar: bool,
) -> bool {
    let k = first_fit(tokens, t, 0);
    &&& in_bazaar
    &&& funds >= cost(t, carter)
    &&& k < 10
    &&& qty[k] < u16::MAX
}

/// The slot rows after one more `t` is stacked into its slot.
pub open spec fn stocked(tokens: Seq<Option<WeaponToken>>, qty: Seq<u16>, t: WeaponToken) -> (Seq<Option<WeaponToken>>, Seq<u16>) {
    let k = first_fit(tokens, t, 0);
    (tokens.update(k, Some(t)), qty.update(k, (qty[k] + 1) as u16))
}

/// Buy `t`: on success the price is taken from `funds` and the weapon stacked
/// into the arsenal; otherwise nothing changes.
pub fn bazaar_buy(arsenal: &mut Arsenal, funds: &mut i64, t: WeaponToken, carter: bool, in_bazaar: bool) -> (ok: bool)
    ensures
        ok == can_buy(old(arsenal).tokens(), old(arsenal).quantities(), *old(funds) as int, t, carter, in_bazaar),
        ok ==> *final(funds) == *old(funds) - cost(t, carter),
        ok ==> (final(arsenal).tokens(), final(arsenal).quantities()) == stocked(
            old(arsenal).tokens(),
            old(arsenal).quantities(),
            t,
        ),
        !ok ==> *final(funds) == *old(funds) && *final(arsenal) == *old(arsenal),
        old(arsenal).wf() ==> final(arsenal).wf(),
{
    if !in_bazaar {
        return false;
    }
    let price = price_of(t, carter);
    if *funds < price {
        return false;
    }
    let k = arsenal.fit_slot(t);
    if k >= 10 || arsenal.quantity(k) == u16::MAX {
        return false;
    }
    let ok = arsenal.buy(t);
    *funds = *funds - price;
    ok
}

/// Sell one `t` back: it leaves the first slot holding it and the current
/// (Carter-adjusted) price is refunded. Nothing changes when the bazaar is
/// closed or no `t` is held.
pub fn bazaar_sell(arsenal: &mut Arsenal, funds: &mut i64, t: WeaponToken, carter: bool, in_bazaar: bool) -> (ok: bool)
    requires
        *old(funds) <= i64::MAX - 2400,
    ensures
        ok == (in_bazaar && first_held(old(arsenal).tokens(), old(arsenal).quantities(), t, 0) < 10),
        ok ==> *final(funds) == *old(funds) + cost(t, carter),
        ok ==> (final(arsenal).tokens(), final(arsenal).quantities()) == use_slot_spec(
            old(arsenal).tokens(),
            old(arsenal).quantities(),
            first_held(old(arsenal).tokens(), old(arsenal).quantities(), t, 0),
        ),
        !ok ==> *final(funds) == *old(funds) && final(arsenal).tokens() == old(arsenal).tokens()
            && final(arsenal).quantities() == old(arsenal).quantities(),
        old(arsenal).wf() ==> final(arsenal).wf(),
{
    if !in_bazaar {
        return false;
    }
    if arsenal.sell(t) {
        *funds = *funds + price_of(t, carter);
        true
    } else {
        false
    }
}

/// Fire the weapon in arsenal slot `slot`: when firing is possible (the game
/// is running and not in the bazaar) and the slot holds a weapon, one copy is
/// used up and the weapon is returned.
pub fn fire_slot(arsenal: &mut Arsenal, slot: usize, can_fire: bool) -> (r: Option<WeaponToken>)
    ensures
        r == (if can_fire && slot < 10 { old(arsenal).tokens()[slot as int] } else { None::<WeaponToken> }),
        r is Some ==> (final(arsenal).tokens(), final(arsenal).quantities()) == use_slot_spec(
            old(arsenal).tokens(),
            old(arsenal).quantities(),
            slot as int,
        ),
        r is None ==> *final(arsenal) == *old(arsenal),
        old(arsenal).wf() ==> final(arsenal).wf(),
{
    if !can_fire {
        return None;
    }
    match arsenal.token(slot) {
        Some(t) => {
            arsenal.use_slot(slot);
            Some(t)
        },
        None => None,
    }
}

} // verus!
