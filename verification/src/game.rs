//! Pieces of a single player's game that are pure bookkeeping: the events a
//! game reports to its host, the countdown to the next bazaar, and the expiry
//! of active weapons as lines are cleared.

use vstd::prelude::*;
use crate::constants::BT_LINES_TIL_BAZ;
use crate::weapons::{WeaponToken, token_at};

verus! {

/// What a game reports to its host (front end or two-player relay).
#[derive(Clone, Copy, Debug, PartialEq, Eq, Structural)]
pub enum GameEvent {
    /// A piece locked and `lines` rows cleared, worth `value` pips and `funds`
    /// (no lines: just a lock).
    Locked { lines: i32, value: i32, funds: i32 },
    /// A fast drop slid into place from below (an airslide).
    Airslide,
    /// This player launched a weapon; the relay delivers it to the opponent.
    WeaponLaunched(WeaponToken),
    /// This player's score changed; the relay mirrors it to the opponent.
    Scored { score: i64, lines: i64, funds: i64 },
    /// Funds this player just lost to the opponent (Mondale's tax or Keating's
    /// seizure), which the relay credits to the attacker.
    FundsStolen(i64),
    /// The combined line count crossed a multiple of the bazaar interval.
    EnterBazaar,
    /// A bad move, a near death or a missed smiley, by its reason code.
    Idiot(i16),
    /// The player topped out.
    GameOver,
}

/// Lines left until the next bazaar, from the two players' combined lines.
pub open spec fn til_bazaar(lines: int, op_lines: int) -> int {
    BT_LINES_TIL_BAZ - (lines + op_lines) % (BT_LINES_TIL_BAZ as int)
}

/// Recount the lines left until the bazaar after either player's line count
/// changed; the bazaar opens when the count jumps up, that is when the combined
/// lines crossed a multiple of the interval. Returns the new count and whether
/// the bazaar opens.
pub fn bazaar_countdown(lines: i64, op_lines: i64, til: i32) -> (r: (i32, bool))
    requires
        i64::MIN <= lines + op_lines <= i64::MAX,
    ensures
        r.0 == til_bazaar(lines as int, op_lines as int),
        1 <= r.0 <= BT_LINES_TIL_BAZ,
        r.1 == (r.0 > til),
{
    let combined = lines + op_lines;
    let m = combined % (BT_LINES_TIL_BAZ as i64);
    let m = if m < 0 { m + BT_LINES_TIL_BAZ as i64 } else { m };
    assert(m == (lines + op_lines) % (BT_LINES_TIL_BAZ as int));
    let new_til = BT_LINES_TIL_BAZ - m as i32;
    (new_til, new_til > til)
}

/// A weapon's remaining duration after `lines` more lines (never below zero);
/// an inactive weapon (zero) stays at zero.
pub open spec fn counted_down(rem: i32, lines: int) -> i32 {
    if rem == 0 {
        0
    } else if rem - lines > 0 {
        (rem - lines) as i32
    } else {
        0
    }
}

/// The weapons whose duration runs out with these lines, in index order.
pub open spec fn expiring(rem: Seq<i32>, lines: int, n: int) -> Seq<WeaponToken>
    decreases n,
{
    if n <= 0 {
        Seq::empty()
    } else {
        let prev = expiring(rem, lines, n - 1);
        if rem[n - 1] != 0 && counted_down(rem[n - 1], lines) == 0 {
            prev.push(token_at(n - 1))
        } else {
            prev
        }
    }
}

/// Count every active weapon's duration down by the lines just cleared and
/// return, in index order, the weapons that ran out (to be switched off).
pub fn count_down(remaining: &mut [i32; 34], lines: i32) -> (expired: Vec<WeaponToken>)
    requires
        lines >= 0,
    ensures
        forall|i: int| 0 <= i < 34 ==> #[trigger] final(remaining)@[i] == counted_down(old(remaining)@[i], lines as int),
        expired@ == expiring(old(remaining)@, lines as int, 34),
{
    let ghost r0 = remaining@;
    let mut expired: Vec<WeaponToken> = Vec::new();
    let mut i: usize = 0;
    while i < 34
        invariant
            0 <= i <= 34,
            lines >= 0,
            r0.len() == 34,
            remaining@.len() == 34,
            forall|j: int| 0 <= j < i ==> #[trigger] remaining@[j] == counted_down(r0[j], lines as int),
            forall|j: int| i <= j < 34 ==> #[trigger] remaining@[j] == r0[j],
            expired@ == expiring(r0, lines as int, i as int),
        decreases 34 - i,
    {
        let rem = remaining[i];
        if rem != 0 {
            let left = rem as i64 - lines as i64;
            let next: i32 = if left > 0 { left as i32 } else { 0 };
            remaining[i] = next;
            if next == 0 {
                if let Some(t) = WeaponToken::from_index(i as i32) {
                    expired.push(t);
                }
            }
        }
        i = i + 1;
    }
    expired
}

} // verus!
