use battletris::ai::Placement;
use battletris::pacing::{launch_tick, place_tick, spy_tick, SteerStep, Steering};

#[test]
fn a_launch_fires_when_the_countdown_runs_out() {
    let mut cd = 3;
    assert_eq!(launch_tick(&mut cd, Some(4), 120, 30), None);
    assert_eq!(cd, 2);
    assert_eq!(launch_tick(&mut cd, Some(4), 120, 30), None);
    assert_eq!(cd, 1);
    assert_eq!(launch_tick(&mut cd, Some(4), 120, 30), Some(4));
    assert_eq!(cd, 120);
}

#[test]
fn nothing_worth_firing_retries_sooner() {
    let mut cd = 1;
    assert_eq!(launch_tick(&mut cd, None, 120, 30), None);
    assert_eq!(cd, 30);
    let mut late = -5;
    assert_eq!(launch_tick(&mut late, Some(0), 120, 30), Some(0));
    assert_eq!(late, 120);
}

#[test]
fn a_placement_is_due_once_the_countdown_is_spent() {
    let mut cd = 2;
    assert!(!place_tick(&mut cd, 26));
    assert_eq!(cd, 1);
    assert!(!place_tick(&mut cd, 26));
    assert_eq!(cd, 0);
    assert!(place_tick(&mut cd, 26));
    assert_eq!(cd, 26);
}

#[test]
fn a_spy_view_goes_stale() {
    let mut fresh = 2;
    let mut high = true;
    spy_tick(&mut fresh, &mut high);
    assert_eq!((fresh, high), (1, true));
    spy_tick(&mut fresh, &mut high);
    assert_eq!((fresh, high), (0, false));
    high = true;
    spy_tick(&mut fresh, &mut high);
    assert_eq!((fresh, high), (0, true));
}

#[test]
fn steering_turns_then_slides_then_drops() {
    let target = Placement { x: 2, orientation: 1 };
    let mut s = Steering::new(4, 10);
    assert_eq!((s.turns_left, s.slides_left), (4, 20));
    let (mut or, mut x) = (3, 5);
    let mut steps = Vec::new();
    loop {
        let step = s.next(Some((or, x)), target);
        steps.push(step);
        match step {
            SteerStep::Rotate => or = (or + 1) % 4,
            SteerStep::MoveLeft => x -= 1,
            SteerStep::MoveRight => x += 1,
            SteerStep::Drop => break,
        }
    }
    assert_eq!(
        steps,
        vec![SteerStep::Rotate, SteerStep::Rotate, SteerStep::MoveLeft, SteerStep::MoveLeft, SteerStep::MoveLeft, SteerStep::Drop]
    );
}

#[test]
fn steering_gives_up_when_the_piece_does_not_move() {
    let target = Placement { x: 0, orientation: 0 };
    let mut s = Steering::new(0, 3);
    let mut count = 0;
    while s.next(Some((1, 5)), target) != SteerStep::Drop {
        count += 1;
    }
    // one turn (a piece has at least one), then two slides per column
    assert_eq!(count, 1 + 6);
    assert_eq!(s.next(None, target), SteerStep::Drop);
}
