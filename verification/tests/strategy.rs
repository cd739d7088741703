use battletris::arsenal::Arsenal;
use battletris::bazaar::{bazaar_buy, bazaar_sell, fire_slot};
use battletris::board::Board;
use battletris::cell::Cell;
use battletris::strategy::Strategy;
use battletris::weapons::WeaponToken;

fn empty_board() -> Board {
    Board::standard(true)
}

#[test]
fn whitelist_blocks_spies_meadow_susan_reagan_initially() {
    let s = Strategy::new(1);
    for t in [
        WeaponToken::Ace,
        WeaponToken::Condor,
        WeaponToken::Ames,
        WeaponToken::Meadow,
        WeaponToken::Susan,
        WeaponToken::Reagan,
    ] {
        assert!(!s.can_purchase(t.index()), "{t:?} must NOT be purchasable at start");
    }
    for t in [
        WeaponToken::RiseUp,
        WeaponToken::Mondale,
        WeaponToken::Keating,
        WeaponToken::Bottle,
        WeaponToken::Hatter,
        WeaponToken::Carter,
    ] {
        assert!(s.can_purchase(t.index()), "{t:?} must be purchasable at start");
    }
}

#[test]
fn susan_purchase_unlocks_at_opponent_line_50() {
    let mut s = Strategy::new(1);
    let board = empty_board();
    let mut arsenal = Arsenal::new();
    assert!(!s.can_purchase(WeaponToken::Susan.index()));
    s.activate_commando(&board, 49, false, true, &mut arsenal);
    assert!(!s.can_purchase(WeaponToken::Susan.index()), "still locked below 50 opponent lines");
    s.activate_commando(&board, 50, false, true, &mut arsenal);
    assert!(s.can_purchase(WeaponToken::Susan.index()), "unlocked at 50 opponent lines");
}

#[test]
fn launches_a_normal_ordered_weapon() {
    let mut s = Strategy::new(1);
    let board = empty_board();
    let mut arsenal = Arsenal::new();
    assert!(arsenal.buy(WeaponToken::RiseUp));
    s.queue_launch(WeaponToken::RiseUp);
    let before = s.pending_orders();
    let fired = s.activate_commando(&board, 0, false, true, &mut arsenal);
    assert_eq!(fired, vec![WeaponToken::RiseUp], "the ordered RiseUp launches");
    assert_eq!(s.pending_orders(), before - 1, "the fired order is removed");
    assert_eq!(arsenal.quantity(0), 0, "one RiseUp was used up");
}

#[test]
fn never_launches_hatter_flipout_speedy() {
    for t in [WeaponToken::Hatter, WeaponToken::FlipOut, WeaponToken::Speedy] {
        let mut s = Strategy::new(1);
        let board = empty_board();
        let mut arsenal = Arsenal::new();
        assert!(arsenal.buy(t));
        s.queue_launch(t);
        let before = s.pending_orders();
        let fired = s.activate_commando(&board, 0, false, true, &mut arsenal);
        assert!(fired.is_empty(), "{t:?} must not be launched by the computer");
        assert_eq!(s.pending_orders(), before - 1, "the order is still consumed (fired but ignored)");
        assert_eq!(arsenal.quantity(0), 1);
    }
}

#[test]
fn holds_its_own_launches_while_mirror_cursed() {
    let mut s = Strategy::new(1);
    let board = empty_board();
    let mut arsenal = Arsenal::new();
    assert!(arsenal.buy(WeaponToken::RiseUp));
    s.queue_launch(WeaponToken::RiseUp);
    let before = s.pending_orders();
    let fired = s.activate_commando(&board, 0, true, true, &mut arsenal);
    assert!(fired.is_empty(), "a Mirror-cursed Ernie holds its own launch");
    assert_eq!(s.pending_orders(), before, "the held order stays pending for later");
}

#[test]
fn a_launch_in_the_bazaar_consumes_the_order_but_fires_nothing() {
    let mut s = Strategy::new(1);
    let board = empty_board();
    let mut arsenal = Arsenal::new();
    assert!(arsenal.buy(WeaponToken::RiseUp));
    s.queue_launch(WeaponToken::RiseUp);
    let before = s.pending_orders();
    let fired = s.activate_commando(&board, 0, false, false, &mut arsenal);
    assert!(fired.is_empty());
    assert_eq!(s.pending_orders(), before - 1);
    assert_eq!(arsenal.quantity(0), 1, "nothing left the arsenal");
}

#[test]
fn launching_reagan_locks_the_economy_weapons_for_fifty_lines() {
    let mut s = Strategy::new(1);
    let board = empty_board();
    let mut arsenal = Arsenal::new();
    assert!(arsenal.buy(WeaponToken::Reagan));
    s.queue_launch(WeaponToken::Reagan);
    let before = s.pending_orders();
    let fired = s.activate_commando(&board, 0, false, true, &mut arsenal);
    assert_eq!(fired, vec![WeaponToken::Reagan]);
    // the launch order left, three unlock orders arrived
    assert_eq!(s.pending_orders(), before - 1 + 3);
    for t in [WeaponToken::Reagan, WeaponToken::Keating, WeaponToken::NiceDay] {
        assert!(!s.can_purchase(t.index()), "{t:?} is locked after a Reagan launch");
    }
    s.activate_commando(&board, 49, false, true, &mut arsenal);
    assert!(!s.can_purchase(WeaponToken::Keating.index()), "still locked at 49");
    s.activate_commando(&board, 50, false, true, &mut arsenal);
    for t in [WeaponToken::Reagan, WeaponToken::Keating, WeaponToken::NiceDay] {
        assert!(s.can_purchase(t.index()), "{t:?} unlocks fifty lines later");
    }
}

#[test]
fn a_late_first_launch_pushes_later_line_triggers_back() {
    let mut s = Strategy::new(1);
    let board = empty_board();
    let mut arsenal = Arsenal::new();
    assert!(arsenal.buy(WeaponToken::Reagan));
    s.queue_launch(WeaponToken::Reagan);
    // the launch order (line 0) fires ten lines late, so the unlocks stamped
    // for line 60 move to line 70
    s.activate_commando(&board, 10, false, true, &mut arsenal);
    s.activate_commando(&board, 69, false, true, &mut arsenal);
    assert!(!s.can_purchase(WeaponToken::Keating.index()));
    s.activate_commando(&board, 70, false, true, &mut arsenal);
    assert!(s.can_purchase(WeaponToken::Keating.index()));
}

#[test]
fn a_queued_weapon_missing_from_the_arsenal_fires_nothing() {
    let mut s = Strategy::new(1);
    let board = empty_board();
    let mut arsenal = Arsenal::new();
    s.queue_launch(WeaponToken::RiseUp);
    let fired = s.activate_commando(&board, 0, false, true, &mut arsenal);
    assert!(fired.is_empty());
}

#[test]
fn broke_shopping_buys_nothing() {
    let mut s = Strategy::new(7);
    let board = empty_board();
    let mut arsenal = Arsenal::new();
    let mut funds: i64 = 10;
    let before = s.pending_orders();
    s.go_shopping(&board, false, true, &mut funds, &mut arsenal);
    assert_eq!(funds, 10);
    assert_eq!(s.pending_orders(), before);
    for i in 0..10 {
        assert_eq!(arsenal.quantity(i), 0);
    }
}

#[test]
fn shopping_spends_within_means_and_queues_an_order_per_purchase() {
    for seed in [1u64, 2, 3, 42, 2024] {
        let mut s = Strategy::new(seed);
        let board = empty_board();
        let mut arsenal = Arsenal::new();
        let mut funds: i64 = 3000;
        let before = s.pending_orders();
        s.go_shopping(&board, false, true, &mut funds, &mut arsenal);
        assert!(funds >= 0 && funds < 3000, "seed {seed}: spent within means, funds now {funds}");
        let bought: usize = (0..10).map(|i| arsenal.quantity(i) as usize).sum();
        assert!(bought > 0);
        assert_eq!(s.pending_orders(), before + bought, "one order per weapon bought");
    }
}

#[test]
fn shopping_with_the_bazaar_closed_buys_nothing() {
    let mut s = Strategy::new(3);
    let board = empty_board();
    let mut arsenal = Arsenal::new();
    let mut funds: i64 = 5000;
    s.go_shopping(&board, false, false, &mut funds, &mut arsenal);
    assert_eq!(funds, 5000);
}

#[test]
fn swap_is_buyable_only_with_a_high_stack() {
    let mut low = Strategy::new(1);
    let mut arsenal = Arsenal::new();
    let mut funds: i64 = 0;
    low.go_shopping(&empty_board(), false, true, &mut funds, &mut arsenal);
    assert!(!low.can_purchase(WeaponToken::Swap.index()));

    let mut high = Strategy::new(1);
    let mut board = empty_board();
    board.set(3, 5, Some(Cell::color(2)));
    high.go_shopping(&board, false, true, &mut funds, &mut arsenal);
    assert!(high.can_purchase(WeaponToken::Swap.index()));

    let mut edge = Strategy::new(1);
    let mut board = empty_board();
    board.set(3, 6, Some(Cell::color(2)));
    edge.go_shopping(&board, false, true, &mut funds, &mut arsenal);
    assert!(!edge.can_purchase(WeaponToken::Swap.index()), "row 6 is below the swap line");
}

#[test]
fn bazaar_buy_charges_double_under_carter() {
    let mut arsenal = Arsenal::new();
    let mut funds: i64 = 200;
    assert!(bazaar_buy(&mut arsenal, &mut funds, WeaponToken::RiseUp, true, true));
    assert_eq!(funds, 50);
    assert!(!bazaar_buy(&mut arsenal, &mut funds, WeaponToken::RiseUp, true, true), "150 needed, 50 held");
    assert_eq!(funds, 50);
    assert!(!bazaar_buy(&mut arsenal, &mut funds, WeaponToken::Gimp, false, false), "bazaar closed");
    assert!(bazaar_buy(&mut arsenal, &mut funds, WeaponToken::Gimp, false, true));
    assert_eq!(funds, 25);
    assert_eq!(arsenal.token(1), Some(WeaponToken::Gimp));
}

#[test]
fn bazaar_sell_refunds_the_current_price() {
    let mut arsenal = Arsenal::new();
    let mut funds: i64 = 75;
    assert!(bazaar_buy(&mut arsenal, &mut funds, WeaponToken::RiseUp, false, true));
    assert_eq!(funds, 0);
    assert!(bazaar_sell(&mut arsenal, &mut funds, WeaponToken::RiseUp, true, true));
    assert_eq!(funds, 150, "selling under Carter refunds the doubled price");
    assert!(!bazaar_sell(&mut arsenal, &mut funds, WeaponToken::RiseUp, false, true));
    assert_eq!(funds, 150);
}

#[test]
fn fire_slot_uses_one_copy() {
    let mut arsenal = Arsenal::new();
    assert!(arsenal.buy(WeaponToken::Blind));
    assert!(arsenal.buy(WeaponToken::Blind));
    assert_eq!(fire_slot(&mut arsenal, 0, false), None);
    assert_eq!(arsenal.quantity(0), 2);
    assert_eq!(fire_slot(&mut arsenal, 0, true), Some(WeaponToken::Blind));
    assert_eq!(arsenal.quantity(0), 1);
    assert_eq!(fire_slot(&mut arsenal, 3, true), None);
}
