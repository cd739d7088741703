//! The networked bot's per-tick decisions around its inputs: when a weapon
//! launch and a placement are due, how long a spy's view of the opponent stays
//! fresh, and which input steers the falling piece toward a placement next.

use vstd::prelude::*;
use crate::ai::Placement;

verus! {

/// Advance the launch pacer by one tick. `pick` is the slot the launch policy
/// chooses at this moment. Once the countdown reaches zero the pick is fired
/// and the countdown restarts at `interval`, or, with nothing worth firing,
/// at `retry`.
pub fn launch_tick(cooldown: &mut i32, pick: Option<usize>, interval: i32, retry: i32) -> (fire: Option<usize>)
    requires
        *old(cooldown) > i32::MIN,
    ensures
        *old(cooldown) - 1 > 0 ==> fire is None && *final(cooldown) == *old(cooldown) - 1,
        *old(cooldown) - 1 <= 0 ==> fire == pick && *final(cooldown) == if pick is Some { interval } else { retry },
{
    *cooldown = *cooldown - 1;
    if *cooldown <= 0 {
        match pick {
            Some(slot) => {
                *cooldown = interval;
                Some(slot)
            },
            None => {
                *cooldown = retry;
                None
            },
        }
    } else {
        None
    }
}

/// Advance the placement pacer by one tick: while the countdown runs it
/// counts down and nothing is placed; once it has run out a placement is due
/// and the countdown restarts at `interval`.
pub fn place_tick(cooldown: &mut i32, interval: i32) -> (due: bool)
    ensures
        due == (*old(cooldown) <= 0),
        due ==> *final(cooldown) == interval,
        !due ==> *final(cooldown) == *old(cooldown) - 1,
{
    if *cooldown > 0 {
        *cooldown = *cooldown - 1;
        false
    } else {
        *cooldown = interval;
        true
    }
}

/// Age a spy's view by one tick: the view's remaining freshness counts down,
/// and the opponent stops counting as high the moment it runs out.
pub fn spy_tick(fresh: &mut u32, opp_high: &mut bool)
    ensures
        *old(fresh) == 0 ==> *final(fresh) == 0 && *final(opp_high) == *old(opp_high),
        *old(fresh) > 0 ==> *final(fresh) == *old(fresh) - 1,
        *old(fresh) > 1 ==> *final(opp_high) == *old(opp_high),
        *old(fresh) == 1 ==> !*final(opp_high),
{
    if *fresh > 0 {
        *fresh = *fresh - 1;
        if *fresh == 0 {
            *opp_high = false;
        }
    }
}

/// An input that steers the falling piece.
#[derive(Clone, Copy, Debug, PartialEq, Eq, Structural)]
pub enum SteerStep {
    Rotate,
    MoveLeft,
    MoveRight,
    /// Steering is over: drop the piece.
    Drop,
}

/// How much steering is left for one piece: turns first, then slides.
#[derive(Clone, Copy, Debug)]
pub struct Steering {
    pub turns_left: i32,
    pub slides_left: i32,
}

impl Steering {
    /// Steering for a piece with `orientations` orientations on a board
    /// `width` wide: at most as many turns as orientations (one at least),
    /// then at most two slides per column.
    pub fn new(orientations: i32, width: i32) -> (s: Steering)
        requires
            2 * width <= i32::MAX,
            2 * width >= i32::MIN,
        ensures
            s.turns_left == if orientations < 1 { 1 } else { orientations },
            s.slides_left == 2 * width,
    {
        Steering { turns_left: if orientations < 1 { 1 } else { orientations }, slides_left: 2 * width }
    }

    /// The next input toward `target` for the falling piece, given as its
    /// orientation and column (`None` once there is none); see
    /// [`steer_spec`].
    pub fn next(&mut self, piece: Option<(i32, i32)>, target: Placement) -> (step: SteerStep)
        ensures
            (step, *final(self)) == steer_spec(*old(self), piece, target),
    {
        if self.turns_left > 0 {
            if let Some((o, _)) = piece {
                if o != target.orientation {
                    self.turns_left = self.turns_left - 1;
                    return SteerStep::Rotate;
                }
            }
        }
        self.turns_left = 0;
        if self.slides_left > 0 {
            if let Some((_, x)) = piece {
                if x != target.x {
                    self.slides_left = self.slides_left - 1;
                    return if x < target.x {
                        SteerStep::MoveRight
                    } else {
                        SteerStep::MoveLeft
                    };
                }
            }
        }
        self.slides_left = 0;
        SteerStep::Drop
    }
}

/// One steering step from `s` for a piece at (orientation, column) `piece`:
/// the piece turns while it is off the target orientation and turns remain;
/// after that it never turns again, and slides toward the target column while
/// it is off it and slides remain; then it drops.
pub open spec fn steer_spec(s: Steering, piece: Option<(i32, i32)>, target: Placement) -> (SteerStep, Steering) {
    if s.turns_left > 0 && (piece matches Some((o, _)) && o != target.orientation) {
        (SteerStep::Rotate, Steering { turns_left: (s.turns_left - 1) as i32, ..s })
    } else if s.slides_left > 0 && (piece matches Some((_, x)) && x != target.x) {
        (
            if piece.unwrap().1 < target.x { SteerStep::MoveRight } else { SteerStep::MoveLeft },
            Steering { turns_left: 0, slides_left: (s.slides_left - 1) as i32 },
        )
    } else {
        (SteerStep::Drop, Steering { turns_left: 0, slides_left: 0 })
    }
}

/// Steering ends: from counts that are not negative, every step but the drop
/// uses up a turn or a slide, and the drop leaves none; so one piece gets at
/// most its turns and slides, then the drop.
pub proof fn lemma_steering_ends(s: Steering, piece: Option<(i32, i32)>, target: Placement)
    requires
        s.turns_left >= 0,
        s.slides_left >= 0,
    ensures
        ({
            let (step, s1) = steer_spec(s, piece, target);
            &&& s1.turns_left >= 0 && s1.slides_left >= 0
            &&& step != SteerStep::Drop ==> s1.turns_left + s1.slides_left < s.turns_left + s.slides_left
            &&& step == SteerStep::Drop ==> s1.turns_left == 0 && s1.slides_left == 0
            &&& step == SteerStep::Rotate ==> s1.slides_left == s.slides_left
            &&& step != SteerStep::Rotate ==> s1.turns_left == 0
        }),
{
}

} // verus!
