//! The networked bot's synchronization policy: one total decision over the
//! observable sync state, so the bot never acts ahead of the authoritative
//! server, only shops when the server really has it in the bazaar, and never
//! plays into a frozen match.

use vstd::prelude::*;

verus! {

/// Everything the decision reads, observed once per tick.
#[derive(Clone, Copy, Debug)]
pub struct SyncState {
    /// The match has ended.
    pub done: bool,
    /// No authoritative frame for too long; the opponent went silent.
    pub idle_timed_out: bool,
    /// The last input sequence number the server acknowledged.
    pub acked: u64,
    /// The sequence number of our most recently sent input this bout.
    pub last_sent: u64,
    /// The server says we are in our bazaar.
    pub auth_baz: bool,
    /// The server says the opponent is shopping.
    pub opp_baz: bool,
    /// Our local predicted game thinks it is in the bazaar.
    pub local_baz: bool,
    /// We already bought and sent the leave for this bazaar visit.
    pub bought: bool,
}

/// What the driver should do this tick.
#[derive(Clone, Copy, Debug, PartialEq, Eq, Structural)]
pub enum BotAction {
    /// The bout is over; stop driving.
    End,
    /// Inputs are in flight; hold until the server catches up.
    WaitAck,
    /// A bazaar barrier is up that is not ours to clear; wait it out.
    WaitBazaar,
    /// We are really in our bazaar and have not bought yet: buy and leave.
    Shop,
    /// Clear to advance, launch and place.
    Play,
}

/// The decision, in priority order.
pub open spec fn decide_spec(s: SyncState) -> BotAction {
    if s.done || s.idle_timed_out {
        BotAction::End
    } else if s.acked < s.last_sent {
        BotAction::WaitAck
    } else if s.auth_baz && s.local_baz && !s.bought {
        BotAction::Shop
    } else if s.auth_baz || s.opp_baz || s.local_baz {
        BotAction::WaitBazaar
    } else {
        BotAction::Play
    }
}

/// The synchronization policy. It never acts with inputs unacknowledged
/// (unless the bout is over), shops only when the server and the local game
/// both have us in the bazaar, and never plays while any bazaar flag is up.
pub fn decide(s: &SyncState) -> (a: BotAction)
    ensures
        a == decide_spec(*s),
        !s.done && !s.idle_timed_out && s.acked < s.last_sent ==> a == BotAction::WaitAck,
        a == BotAction::Shop ==> s.auth_baz && s.local_baz && !s.bought,
        (s.auth_baz || s.opp_baz || s.local_baz) ==> a != BotAction::Play,
        a == BotAction::Play ==> s.acked >= s.last_sent,
{
    if s.done || s.idle_timed_out {
        BotAction::End
    } else if s.acked < s.last_sent {
        BotAction::WaitAck
    } else if s.auth_baz && s.local_baz && !s.bought {
        BotAction::Shop
    } else if s.auth_baz || s.opp_baz || s.local_baz {
        BotAction::WaitBazaar
    } else {
        BotAction::Play
    }
}

} // verus!
