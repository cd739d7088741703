//! The roaming challenger's bookkeeping: who is around (and which of them are
//! bots), who is backing off after declining, and the challenge awaiting an
//! answer. It prefers humans, backs off exponentially from anyone who declines,
//! and duels bots when no human is eligible. Times are milliseconds on the
//! caller's clock.

use vstd::prelude::*;

verus! {

/// Idle challenge attempts are at least this far apart.
pub const ROAM_CADENCE_MS: u64 = 10_000;
/// The first backoff after a decline; it doubles with each further decline.
pub const ROAM_BASE_BACKOFF_MS: u64 = 60_000;
/// The backoff never exceeds this.
pub const ROAM_MAX_BACKOFF_MS: u64 = 1_800_000;
/// How long an outstanding challenge holds its target.
pub const ROAM_PENDING_WAIT_MS: u64 = 35_000;
/// The cooldown on someone just played.
pub const ROAM_POST_MATCH_MS: u64 = 90_000;
/// The pause before the next attempt after a decline.
pub const ROAM_AFTER_DECLINE_MS: u64 = 2_000;
/// The pause before the next attempt after a match.
pub const ROAM_AFTER_MATCH_MS: u64 = 3_000;

/// Clock readings stay this far below `u64::MAX`, so every deadline fits.
pub const ROAM_CLOCK_LIMIT: u64 = 0xFFFF_FFFF_0000_0000;

/// A potential challenge target.
#[derive(Clone, Copy, Debug)]
pub struct Target {
    pub is_bot: bool,
    pub available: bool,
    /// The earliest time it may be challenged (again).
    pub next_eligible: u64,
    /// Declines in a row.
    pub declines: u32,
}

/// One player as a roster frame lists them.
#[derive(Clone, Debug)]
pub struct Listed {
    pub name: String,
    /// Their status is "available".
    pub available: bool,
    pub bot: bool,
}

/// The roamer's state.
#[derive(Clone, Debug)]
pub struct Roam {
    /// Our own name (never a target).
    pub me: String,
    /// Everyone seen so far, in order of first appearance.
    pub targets: Vec<(String, Target)>,
    /// The challenge awaiting an answer: target and when it was sent.
    pub pending: Option<(String, u64)>,
    /// The earliest time of the next attempt.
    pub next_attempt: u64,
}

/// The names of a target list.
pub open spec fn names(ts: Seq<(String, Target)>) -> Seq<Seq<char>> {
    ts.map_values(|e: (String, Target)| e.0@)
}

/// The first position at or after `i` of `name` in `ts`, or `-1`.
pub open spec fn position_from(ts: Seq<(String, Target)>, name: Seq<char>, i: int) -> int
    decreases ts.len() - i,
{
    if i < 0 || i >= ts.len() {
        -1
    } else if ts[i].0@ == name {
        i
    } else {
        position_from(ts, name, i + 1)
    }
}

/// The position of `name` in `ts`, or `-1`.
pub open spec fn position(ts: Seq<(String, Target)>, name: Seq<char>) -> int {
    position_from(ts, name, 0)
}

proof fn lemma_position_from(ts: Seq<(String, Target)>, name: Seq<char>, i: int)
    requires
        0 <= i <= ts.len(),
    ensures
        position_from(ts, name, i) == -1 || (i <= position_from(ts, name, i) < ts.len() && ts[position_from(
            ts,
            name,
            i,
        )].0@ == name),
        position_from(ts, name, i) == -1 ==> forall|j: int| i <= j < ts.len() ==> ts[j].0@ != name,
        position_from(ts, name, i) >= 0 ==> forall|j: int| i <= j < position_from(ts, name, i) ==> ts[j].0@ != name,
    decreases ts.len() - i,
{
    if i < ts.len() && ts[i].0@ != name {
        lemma_position_from(ts, name, i + 1);
    }
}

proof fn lemma_position_is(ts: Seq<(String, Target)>, name: Seq<char>, k: int)
    requires
        0 <= k <= ts.len(),
        k < ts.len() ==> ts[k].0@ == name,
        forall|j: int| 0 <= j < k ==> ts[j].0@ != name,
    ensures
        position(ts, name) == if k < ts.len() { k } else { -1 },
{
    lemma_position_from(ts, name, 0);
}

/// The backoff after the `n`th decline in a row (`n >= 1`): the base doubled
/// per earlier decline (at most twenty times), capped.
pub open spec fn backoff(n: int) -> int {
    let shift = if n - 1 < 20 { n - 1 } else { 20 };
    let b = ROAM_BASE_BACKOFF_MS * vstd::arithmetic::power2::pow2(shift as nat);
    if b < ROAM_MAX_BACKOFF_MS { b } else { ROAM_MAX_BACKOFF_MS as int }
}

/// Whether a target may be challenged at `now`.
pub open spec fn eligible(t: Target, now: int) -> bool {
    t.available && t.next_eligible <= now
}

/// The first eligible target at or after `i` whose bot flag is `bot`, or `-1`.
pub open spec fn first_eligible(ts: Seq<(String, Target)>, now: int, bot: bool, i: int) -> int
    decreases ts.len() - i,
{
    if i < 0 || i >= ts.len() {
        -1
    } else if eligible(ts[i].1, now) && ts[i].1.is_bot == bot {
        i
    } else {
        first_eligible(ts, now, bot, i + 1)
    }
}

/// Whom to challenge: the first eligible human, else the first eligible bot,
/// else nobody (`-1`).
pub open spec fn pick_index(ts: Seq<(String, Target)>, now: int) -> int {
    let human = first_eligible(ts, now, false, 0);
    if human >= 0 { human } else { first_eligible(ts, now, true, 0) }
}

proof fn lemma_first_eligible(ts: Seq<(String, Target)>, now: int, bot: bool, i: int)
    requires
        0 <= i <= ts.len(),
    ensures
        first_eligible(ts, now, bot, i) == -1 || (i <= first_eligible(ts, now, bot, i) < ts.len() && eligible(
            ts[first_eligible(ts, now, bot, i)].1,
            now,
        ) && ts[first_eligible(ts, now, bot, i)].1.is_bot == bot),
    decreases ts.len() - i,
{
    if i < ts.len() && !(eligible(ts[i].1, now) && ts[i].1.is_bot == bot) {
        lemma_first_eligible(ts, now, bot, i + 1);
    }
}

/// The first eligible target from `i` with bot flag `bot` is the first one:
/// none before it qualifies, and `-1` means none qualifies at all.
proof fn lemma_first_eligible_first(ts: Seq<(String, Target)>, now: int, bot: bool, i: int)
    requires
        0 <= i <= ts.len(),
    ensures
        first_eligible(ts, now, bot, i) == -1 ==> forall|m: int|
            i <= m < ts.len() ==> !(eligible(#[trigger] ts[m].1, now) && ts[m].1.is_bot == bot),
        first_eligible(ts, now, bot, i) >= 0 ==> forall|m: int|
            i <= m < first_eligible(ts, now, bot, i) ==> !(eligible(#[trigger] ts[m].1, now) && ts[m].1.is_bot == bot),
    decreases ts.len() - i,
{
    if i < ts.len() && !(eligible(ts[i].1, now) && ts[i].1.is_bot == bot) {
        lemma_first_eligible_first(ts, now, bot, i + 1);
    }
}

/// Whom the roamer challenges: nobody exactly when no target is eligible;
/// otherwise an eligible target, a human whenever some eligible target is a
/// human (a bot only when every eligible target is a bot), and the first
/// eligible target of its kind in roster order.
pub proof fn lemma_pick_prefers_humans(ts: Seq<(String, Target)>, now: int)
    ensures
        pick_index(ts, now) == -1 <==> !exists|i: int| 0 <= i < ts.len() && eligible(#[trigger] ts[i].1, now),
        pick_index(ts, now) >= 0 ==> 0 <= pick_index(ts, now) < ts.len() && eligible(ts[pick_index(ts, now)].1, now),
        (exists|i: int| 0 <= i < ts.len() && eligible(#[trigger] ts[i].1, now) && !ts[i].1.is_bot) ==> pick_index(ts, now) >= 0
            && !ts[pick_index(ts, now)].1.is_bot,
        pick_index(ts, now) >= 0 ==> forall|i: int|
            0 <= i < pick_index(ts, now) && eligible(#[trigger] ts[i].1, now) ==> ts[i].1.is_bot != ts[pick_index(ts, now)].1.is_bot,
{
    lemma_first_eligible(ts, now, false, 0);
    lemma_first_eligible(ts, now, true, 0);
    lemma_first_eligible_first(ts, now, false, 0);
    lemma_first_eligible_first(ts, now, true, 0);
    let h = first_eligible(ts, now, false, 0);
    let b = first_eligible(ts, now, true, 0);
    if exists|i: int| 0 <= i < ts.len() && eligible(#[trigger] ts[i].1, now) {
        let i = choose|i: int| 0 <= i < ts.len() && eligible(#[trigger] ts[i].1, now);
        if ts[i].1.is_bot {
            assert(b >= 0);
        } else {
            assert(h >= 0);
        }
    }
    if h < 0 && b >= 0 {
        assert forall|i: int| 0 <= i < b && eligible(#[trigger] ts[i].1, now) implies ts[i].1.is_bot != ts[b].1.is_bot by {
            assert(!(eligible(ts[i].1, now) && ts[i].1.is_bot == false));
        }
    }
}

/// The target list after one roster entry: a new name (other than ours) joins
/// unavailable with no backoff; then the entry's availability and bot flag are
/// recorded.
pub open spec fn listed_one(ts: Seq<(String, Target)>, me: Seq<char>, p: Listed, now: int) -> Seq<(String, Target)> {
    if p.name@ == me {
        ts
    } else {
        let k = position(ts, p.name@);
        if k >= 0 {
            ts.update(k, (ts[k].0, Target { is_bot: p.bot, available: p.available, ..ts[k].1 }))
        } else {
            ts.push((p.name, Target { is_bot: p.bot, available: p.available, next_eligible: now as u64, declines: 0 }))
        }
    }
}

/// The target list after the first `n` roster entries.
pub open spec fn listed(ts: Seq<(String, Target)>, me: Seq<char>, ps: Seq<Listed>, now: int, n: int) -> Seq<(String, Target)>
    decreases n,
{
    if n <= 0 {
        ts
    } else {
        listed_one(listed(ts, me, ps, now, n - 1), me, ps[n - 1], now)
    }
}

/// Everyone marked unavailable.
pub open spec fn all_away(ts: Seq<(String, Target)>) -> Seq<(String, Target)> {
    ts.map_values(|e: (String, Target)| (e.0, Target { available: false, ..e.1 }))
}

impl Roam {
    /// A roamer named `me`, free to attempt a challenge at once.
    pub fn new(me: String, now: u64) -> (r: Roam)
        ensures
            r.me == me,
            r.targets@.len() == 0,
            r.pending is None,
            r.next_attempt == now,
    {
        Roam { me, targets: Vec::new(), pending: None, next_attempt: now }
    }

    /// Take in a roster: everyone is first marked unavailable, then each listed
    /// player (other than us) is recorded with their availability and bot flag,
    /// newcomers joining with no backoff.
    pub fn update_roster(&mut self, players: &[Listed], now: u64)
        ensures
            final(self).me == old(self).me,
            final(self).pending == old(self).pending,
            final(self).next_attempt == old(self).next_attempt,
            final(self).targets@ == listed(all_away(old(self).targets@), old(self).me@, players@, now as int, players@.len() as int),
    {
        let mut i: usize = 0;
        while i < self.targets.len()
            invariant
                self.me == old(self).me,
                self.pending == old(self).pending,
                self.next_attempt == old(self).next_attempt,
                self.targets@.len() == old(self).targets@.len(),
                0 <= i <= self.targets@.len(),
                forall|j: int| 0 <= j < i ==> #[trigger] self.targets@[j] == all_away(old(self).targets@)[j],
                forall|j: int| i <= j < self.targets@.len() ==> #[trigger] self.targets@[j] == old(self).targets@[j],
            decreases self.targets@.len() - i,
        {
            let (name, t) = self.targets.remove(i);
            self.targets.insert(i, (name, Target { available: false, ..t }));
            i = i + 1;
        }
        proof {
            assert(self.targets@ =~= all_away(old(self).targets@));
        }
        let ghost start = self.targets@;
        let mut k: usize = 0;
        while k < players.len()
            invariant
                self.me == old(self).me,
                self.pending == old(self).pending,
                self.next_attempt == old(self).next_attempt,
                0 <= k <= players@.len(),
                self.targets@ == listed(start, self.me@, players@, now as int, k as int),
            decreases players@.len() - k,
        {
            let p = &players[k];
            if !(p.name == self.me) {
                let mut j: usize = 0;
                let mut found = false;
                while j < self.targets.len()
                    invariant_except_break
                        !found,
                    invariant
                        0 <= j <= self.targets@.len(),
                        forall|m: int| 0 <= m < j ==> self.targets@[m].0@ != p.name@,
                    ensures
                        found ==> j < self.targets@.len() && self.targets@[j as int].0@ == p.name@,
                        !found ==> j == self.targets@.len(),
                        forall|m: int| 0 <= m < j ==> self.targets@[m].0@ != p.name@,
                    decreases self.targets@.len() - j,
                {
                    if self.targets[j].0 == p.name {
                        found = true;
                        break;
                    }
                    j = j + 1;
                }
                proof {
                    lemma_position_is(self.targets@, p.name@, j as int);
                }
                let ghost before = self.targets@;
                if found {
                    let (name, t) = self.targets.remove(j);
                    self.targets.insert(j, (name, Target { is_bot: p.bot, available: p.available, ..t }));
                    proof {
                        assert(self.targets@ =~= before.update(
                            j as int,
                            (before[j as int].0, Target { is_bot: p.bot, available: p.available, ..before[j as int].1 }),
                        ));
                    }
                } else {
                    self.targets.push(
                        (p.name.clone(), Target { is_bot: p.bot, available: p.available, next_eligible: now, declines: 0 }),
                    );
                }
            }
            proof {
                assert(players@[k as int] == *p);
            }
            k = k + 1;
        }
    }

    /// A challenge to `who` was declined (or timed out): nothing is pending, the
    /// next attempt waits a little, and `who` backs off exponentially.
    pub fn on_declined(&mut self, who: &String, now: u64)
        requires
            now <= ROAM_CLOCK_LIMIT,
            forall|i: int| 0 <= i < old(self).targets@.len() ==> #[trigger] old(self).targets@[i].1.declines < u32::MAX,
        ensures
            final(self).me == old(self).me,
            final(self).pending is None,
            final(self).next_attempt == now + ROAM_AFTER_DECLINE_MS,
            ({
                let k = position(old(self).targets@, who@);
                let ts = old(self).targets@;
                &&& k < 0 ==> final(self).targets@ == ts
                &&& k >= 0 ==> final(self).targets@ == ts.update(
                    k,
                    (
                        ts[k].0,
                        Target {
                            declines: (ts[k].1.declines + 1) as u32,
                            next_eligible: (now + backoff(ts[k].1.declines + 1)) as u64,
                            ..ts[k].1
                        },
                    ),
                )
            }),
    {
        self.pending = None;
        let mut j: usize = 0;
        while j < self.targets.len()
            invariant
                self.targets@ == old(self).targets@,
                0 <= j <= self.targets@.len(),
                forall|m: int| 0 <= m < j ==> self.targets@[m].0@ != who@,
            ensures
                self.targets@ == old(self).targets@,
                0 <= j <= self.targets@.len(),
                j < self.targets@.len() ==> self.targets@[j as int].0@ == who@,
                forall|m: int| 0 <= m < j ==> self.targets@[m].0@ != who@,
            decreases self.targets@.len() - j,
        {
            if self.targets[j].0 == *who {
                break;
            }
            j = j + 1;
        }
        proof {
            lemma_position_is(self.targets@, who@, j as int);
        }
        if j < self.targets.len() {
            let (name, t) = self.targets.remove(j);
            let declines = t.declines + 1;
            let shift: u64 = if declines - 1 < 20 { (declines - 1) as u64 } else { 20 };
            proof {
                vstd::arithmetic::power2::lemma2_to64();
                if shift < 20 {
                    vstd::arithmetic::power2::lemma_pow2_strictly_increases(shift as nat, 20);
                }
                vstd::bits::lemma_u64_shl_is_mul(ROAM_BASE_BACKOFF_MS, shift);
            }
            let grown: u64 = ROAM_BASE_BACKOFF_MS << shift;
            let wait = if grown < ROAM_MAX_BACKOFF_MS { grown } else { ROAM_MAX_BACKOFF_MS };
            self.targets.insert(j, (name, Target { declines, next_eligible: now + wait, ..t }));
        }
        self.next_attempt = now + ROAM_AFTER_DECLINE_MS;
    }

    /// We matched `opp`: nothing is pending, their decline streak resets and
    /// they cool down for a while.
    pub fn on_matched(&mut self, opp: &String, now: u64)
        requires
            now <= ROAM_CLOCK_LIMIT,
        ensures
            final(self).me == old(self).me,
            final(self).pending is None,
            final(self).next_attempt == old(self).next_attempt,
            ({
                let k = position(old(self).targets@, opp@);
                let ts = old(self).targets@;
                &&& k < 0 ==> final(self).targets@ == ts
                &&& k >= 0 ==> final(self).targets@ == ts.update(
                    k,
                    (ts[k].0, Target { declines: 0, next_eligible: (now + ROAM_POST_MATCH_MS) as u64, ..ts[k].1 }),
                )
            }),
    {
        self.pending = None;
        let mut j: usize = 0;
        while j < self.targets.len()
            invariant
                self.targets@ == old(self).targets@,
                0 <= j <= self.targets@.len(),
                forall|m: int| 0 <= m < j ==> self.targets@[m].0@ != opp@,
            ensures
                self.targets@ == old(self).targets@,
                0 <= j <= self.targets@.len(),
                j < self.targets@.len() ==> self.targets@[j as int].0@ == opp@,
                forall|m: int| 0 <= m < j ==> self.targets@[m].0@ != opp@,
            decreases self.targets@.len() - j,
        {
            if self.targets[j].0 == *opp {
                break;
            }
            j = j + 1;
        }
        proof {
            lemma_position_is(self.targets@, opp@, j as int);
        }
        if j < self.targets.len() {
            let (name, t) = self.targets.remove(j);
            self.targets.insert(j, (name, Target { declines: 0, next_eligible: now + ROAM_POST_MATCH_MS, ..t }));
        }
    }

    /// A match ended: the next attempt waits a little.
    pub fn on_match_end(&mut self, now: u64)
        requires
            now <= ROAM_CLOCK_LIMIT,
        ensures
            final(self).me == old(self).me,
            final(self).targets == old(self).targets,
            final(self).pending == old(self).pending,
            final(self).next_attempt == now + ROAM_AFTER_MATCH_MS,
    {
        self.next_attempt = now + ROAM_AFTER_MATCH_MS;
    }

    /// The first eligible target whose bot flag is `bot`.
    fn first_of(&self, now: u64, bot: bool) -> (r: Option<usize>)
        ensures
            r matches Some(i) ==> i < self.targets@.len() && i as int == first_eligible(self.targets@, now as int, bot, 0),
            r is None ==> first_eligible(self.targets@, now as int, bot, 0) == -1,
    {
        let mut j: usize = 0;
        while j < self.targets.len()
            invariant
                0 <= j <= self.targets@.len(),
                first_eligible(self.targets@, now as int, bot, j as int) == first_eligible(self.targets@, now as int, bot, 0),
            decreases self.targets@.len() - j,
        {
            let t = self.targets[j].1;
            if t.available && t.next_eligible <= now && t.is_bot == bot {
                return Some(j);
            }
            j = j + 1;
        }
        None
    }

    /// Whom to challenge at `now`: the first eligible human, else (bored) the
    /// first eligible bot.
    pub fn pick(&self, now: u64) -> (r: Option<String>)
        ensures
            pick_index(self.targets@, now as int) == -1 ==> r is None,
            pick_index(self.targets@, now as int) >= 0 ==> (r matches Some(n) && n@ == self.targets@[pick_index(
                self.targets@,
                now as int,
            )].0@),
            (exists|i: int| 0 <= i < self.targets@.len() && eligible(#[trigger] self.targets@[i].1, now as int) && !self.targets@[i].1.is_bot)
                ==> (r matches Some(n) && exists|i: int|
                0 <= i < self.targets@.len() && eligible(#[trigger] self.targets@[i].1, now as int) && !self.targets@[i].1.is_bot
                    && n@ == self.targets@[i].0@),
    {
        proof {
            lemma_pick_prefers_humans(self.targets@, now as int);
        }
        let k = match self.first_of(now, false) {
            Some(i) => Some(i),
            None => self.first_of(now, true),
        };
        match k {
            Some(i) => Some(self.targets[i].0.clone()),
            None => None,
        }
    }

    /// One idle step at `now`. An outstanding challenge blocks until it goes
    /// stale; otherwise, once the cadence allows, the next attempt is scheduled
    /// and the picked target (if any) is held and returned to be challenged.
    pub fn step(&mut self, now: u64) -> (r: Option<String>)
        requires
            now <= ROAM_CLOCK_LIMIT,
        ensures
            final(self).me == old(self).me,
            ({
                let stale = (old(self).pending matches Some(p) && now > p.1 && now - p.1 > ROAM_PENDING_WAIT_MS);
                let blocked = old(self).pending is Some && !stale;
                let k = pick_index(old(self).targets@, now as int);
                let ts = old(self).targets@;
                if blocked {
                    r is None && final(self).targets@ == ts && final(self).pending == old(self).pending
                        && final(self).next_attempt == old(self).next_attempt
                } else if now < old(self).next_attempt {
                    r is None && final(self).targets@ == ts && final(self).pending is None
                        && final(self).next_attempt == old(self).next_attempt
                } else if k < 0 {
                    r is None && final(self).targets@ == ts && final(self).pending is None
                        && final(self).next_attempt == now + ROAM_CADENCE_MS
                } else {
                    &&& (r matches Some(n) && n@ == ts[k].0@)
                    &&& (final(self).pending matches Some(p) && p.0@ == ts[k].0@ && p.1 == now)
                    &&& final(self).next_attempt == now + ROAM_CADENCE_MS
                    &&& final(self).targets@ == ts.update(
                        k,
                        (ts[k].0, Target { next_eligible: (now + ROAM_PENDING_WAIT_MS) as u64, ..ts[k].1 }),
                    )
                }
            }),
    {
        let stale = match &self.pending {
            Some(p) => now > p.1 && now - p.1 > ROAM_PENDING_WAIT_MS,
            None => false,
        };
        if self.pending.is_some() {
            if stale {
                self.pending = None;
            } else {
                return None;
            }
        }
        if now < self.next_attempt {
            return None;
        }
        self.next_attempt = now + ROAM_CADENCE_MS;
        let k = match self.first_of(now, false) {
            Some(i) => Some(i),
            None => self.first_of(now, true),
        };
        let i = match k {
            Some(i) => i,
            None => {
                return None;
            },
        };
        let (name, t) = self.targets.remove(i);
        let picked = name.clone();
        let held = name.clone();
        self.targets.insert(i, (name, Target { next_eligible: now + ROAM_PENDING_WAIT_MS, ..t }));
        self.pending = Some((held, now));
        Some(picked)
    }
}

} // verus!
