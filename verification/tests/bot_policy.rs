use battletris::ai::AI_LEVELS;
use battletris::policy::{buy_plan, class, launch_choice, price_of, WClass};
use battletris::sync::{decide, BotAction, SyncState};
use battletris::versus::mirror_nullifies;
use battletris::weapons::WeaponToken;

fn idx(t: WeaponToken) -> i32 {
    t.index() as i32
}

fn empty_arsenal() -> [i32; 10] {
    [-1; 10]
}

#[test]
fn every_token_is_classified_and_only_skips_help_the_victim() {
    for t in [WeaponToken::Meadow, WeaponToken::NiceDay, WeaponToken::Missing] {
        assert_eq!(class(t), WClass::Skip, "{t:?} helps the victim");
    }
    assert_eq!(class(WeaponToken::Mirror), WClass::Skip);
    assert_eq!(class(WeaponToken::Swap), WClass::Skip);
    assert_eq!(class(WeaponToken::Ames), WClass::Spy);
    assert_eq!(class(WeaponToken::RiseUp), WClass::Garbage);
}

#[test]
fn buy_plan_takes_a_spy_first_when_affordable() {
    let plan = buy_plan(1000, &empty_arsenal(), false);
    assert!(!plan.is_empty());
    assert!(plan.iter().any(|t| class(*t) == WClass::Spy), "should stock a spy: {plan:?}");
}

#[test]
fn buy_plan_never_exceeds_funds_or_slots() {
    let funds = 800i64;
    let plan = buy_plan(funds, &empty_arsenal(), false);
    let spent: i64 = plan.iter().map(|t| price_of(*t, false)).sum();
    assert!(spent <= funds, "spent {spent} > funds {funds}: {plan:?}");
    assert!(plan.len() <= 10, "bought more than 10: {plan:?}");
    assert!(plan.iter().all(|t| class(*t) != WClass::Skip));
}

#[test]
fn buy_plan_respects_existing_slots() {
    let mut ars = [idx(WeaponToken::RiseUp); 10];
    ars[9] = -1;
    let plan = buy_plan(5000, &ars, false);
    assert!(plan.len() <= 1, "only one free slot: {plan:?}");
}

#[test]
fn buy_plan_broke_buys_nothing() {
    let plan = buy_plan(10, &empty_arsenal(), false);
    assert!(plan.is_empty(), "can't afford anything: {plan:?}");
}

#[test]
fn launch_activates_a_spy_before_attacking() {
    let mut ars = empty_arsenal();
    ars[0] = idx(WeaponToken::Speedy);
    ars[1] = idx(WeaponToken::Ames);
    assert_eq!(launch_choice(&ars, false, false), Some(1));
}

#[test]
fn launch_prefers_garbage_when_opponent_is_high() {
    let mut ars = empty_arsenal();
    ars[0] = idx(WeaponToken::Speedy);
    ars[1] = idx(WeaponToken::RiseUp);
    assert_eq!(launch_choice(&ars, true, true), Some(1));
    assert_eq!(launch_choice(&ars, true, false), Some(0));
}

#[test]
fn launch_never_fires_a_skip_weapon() {
    let mut ars = empty_arsenal();
    ars[0] = idx(WeaponToken::Meadow);
    ars[1] = idx(WeaponToken::Mirror);
    assert_eq!(launch_choice(&ars, true, true), None, "only Skip weapons -> hold fire");
}

#[test]
fn launch_holds_on_empty_arsenal() {
    assert_eq!(launch_choice(&empty_arsenal(), false, false), None);
}

#[test]
fn vs_mirror_nullify_set_is_exactly_the_originals_nine() {
    for t in [WeaponToken::Swap, WeaponToken::Mondale, WeaponToken::Keating, WeaponToken::Ames, WeaponToken::Ace, WeaponToken::Condor, WeaponToken::NiceDay, WeaponToken::Susan, WeaponToken::Mirror] {
        assert!(mirror_nullifies(t), "{t:?} should be nullified");
    }
    for t in [WeaponToken::RiseUp, WeaponToken::Speedy, WeaponToken::Bottle, WeaponToken::Force, WeaponToken::Gimp, WeaponToken::FlipOut, WeaponToken::Hatter] {
        assert!(!mirror_nullifies(t), "{t:?} should reflect, not nullify");
    }
}

#[test]
fn difficulty_ladder_matches_btcomputer() {
    assert_eq!(AI_LEVELS, [4000, 3000, 2000, 1500, 1250, 1000, 750, 550, 400, 350, 300, 225, 100, 10, 0]);
}

fn sync_state() -> SyncState {
    SyncState {
        done: false,
        idle_timed_out: false,
        acked: 5,
        last_sent: 5,
        auth_baz: false,
        opp_baz: false,
        local_baz: false,
        bought: false,
    }
}

#[test]
fn sync_plays_when_caught_up_and_clear() {
    assert_eq!(decide(&sync_state()), BotAction::Play);
}

#[test]
fn sync_waits_for_acks_before_acting() {
    let s = SyncState { acked: 4, auth_baz: true, local_baz: true, ..sync_state() };
    assert_eq!(decide(&s), BotAction::WaitAck);
}

#[test]
fn sync_shops_only_when_the_server_agrees() {
    let predicted_only = SyncState { local_baz: true, ..sync_state() };
    assert_eq!(decide(&predicted_only), BotAction::WaitBazaar);
    let real = SyncState { local_baz: true, auth_baz: true, ..sync_state() };
    assert_eq!(decide(&real), BotAction::Shop);
    let done_shopping = SyncState { bought: true, ..real };
    assert_eq!(decide(&done_shopping), BotAction::WaitBazaar);
}

#[test]
fn sync_ends_the_bout_first() {
    let s = SyncState { done: true, acked: 0, last_sent: 9, ..sync_state() };
    assert_eq!(decide(&s), BotAction::End);
    let t = SyncState { idle_timed_out: true, opp_baz: true, ..sync_state() };
    assert_eq!(decide(&t), BotAction::End);
}

#[test]
fn opponent_shopping_freezes_us() {
    let s = SyncState { opp_baz: true, ..sync_state() };
    assert_eq!(decide(&s), BotAction::WaitBazaar);
}
