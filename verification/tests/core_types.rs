use battletris::spy::adjust_funds;
use battletris::spy::noise_for;
use battletris::arsenal::Arsenal;
use battletris::cell::{Cell, CellKind};
use battletris::rng::{Rng, RAND_MAX};
use battletris::versus::mirror_nullifies;
use battletris::weapons::{weapon_table, ActiveFlags, WeaponToken, BT_MAX_WEAPONS};

#[test]
fn buy_stacks_and_fills() {
    let mut a = Arsenal::new();
    assert!(a.buy(WeaponToken::RiseUp));
    assert!(a.buy(WeaponToken::RiseUp));
    assert_eq!(a.token(0), Some(WeaponToken::RiseUp));
    assert_eq!(a.quantity(0), 2);
    assert!(a.buy(WeaponToken::Blind));
    assert_eq!(a.token(1), Some(WeaponToken::Blind));
    assert_eq!(a.quantity(1), 1);
}

#[test]
fn use_empties_slot_at_zero() {
    let mut a = Arsenal::new();
    a.buy(WeaponToken::Swap);
    a.use_slot(0);
    assert_eq!(a.token(0), None);
    assert_eq!(a.quantity(0), 0);
}

#[test]
fn full_arsenal_rejects_new_kinds() {
    let mut a = Arsenal::new();
    let kinds = [
        WeaponToken::FearedWeird,
        WeaponToken::FourByFour,
        WeaponToken::Hatter,
        WeaponToken::Upbyside,
        WeaponToken::FallOut,
        WeaponToken::Swap,
        WeaponToken::Lawyers,
        WeaponToken::RiseUp,
        WeaponToken::FlipOut,
        WeaponToken::Speedy,
    ];
    for k in kinds {
        assert!(a.buy(k));
    }
    assert!(!a.buy(WeaponToken::Blind));
    assert!(a.buy(WeaponToken::Speedy));
}

#[test]
fn cell_encode_decode_round_trips_every_kind() {
    let cases = [
        Cell::color(3),
        Cell::die(6),
        Cell::happy(),
        Cell::structure(),
        Cell::gimp(5),
        Cell::new(CellKind::Invisible { id: 7, value: 42 }),
        {
            let mut c = Cell::die(4);
            c.conceal();
            c
        },
    ];
    for c in cases {
        assert_eq!(Cell::decode(c.encode()), Some(c), "{c:?} must round-trip");
    }
    assert_eq!(Cell::decode([0, 0, 0, 0]), None);
}

#[test]
fn test_lrand48_range() {
    let mut rng = Rng::new(12345);
    for _ in 0..10_000 {
        let val = rng.lrand48();
        assert!(val >= 0 && val <= RAND_MAX as i64, "lrand48() value {} out of range", val);
    }
}

#[test]
fn test_rand_range() {
    let mut rng = Rng::new(12345);
    for _ in 0..10_000 {
        let val = rng.rand();
        assert!(val >= 0 && val as i64 <= RAND_MAX as i64, "rand() value {} out of range", val);
    }
}

#[test]
fn test_rand_below_die_roll() {
    let mut rng = Rng::new(12345);
    for _ in 0..10_000 {
        let val = rng.rand_below(6) + 1;
        assert!((1..=6).contains(&val), "die roll {} out of range", val);
    }
}

#[test]
fn test_rand_below_range() {
    let mut rng = Rng::new(12345);
    for _ in 0..10_000 {
        let val = rng.rand_below(10);
        assert!((0..10).contains(&val), "rand_below(10) value {} out of range", val);
    }
}

#[test]
fn test_lcg_step_verification() {
    let mut rng = Rng::new(0);
    assert_eq!(rng.raw(), 0x330E);
    const A: u64 = 0x5DEECE66D;
    const C: u64 = 0xB;
    const MOD: u64 = 1u64 << 48;
    let expected = (A.wrapping_mul(0x330E).wrapping_add(C)) & (MOD - 1);
    let _ = rng.rand();
    assert_eq!(rng.raw(), expected, "LCG step mismatch");
}

#[test]
fn versus_mirror_nullify_set_is_exactly_the_originals_nine() {
    for t in [WeaponToken::Swap, WeaponToken::Mondale, WeaponToken::Keating, WeaponToken::Ames, WeaponToken::Ace, WeaponToken::Condor, WeaponToken::NiceDay, WeaponToken::Susan, WeaponToken::Mirror] {
        assert!(mirror_nullifies(t), "{t:?} should be nullified");
    }
    for t in [WeaponToken::RiseUp, WeaponToken::Speedy, WeaponToken::Bottle, WeaponToken::Force, WeaponToken::Gimp, WeaponToken::FlipOut, WeaponToken::Hatter] {
        assert!(!mirror_nullifies(t), "{t:?} should backfire, not nullify");
    }
}

#[test]
fn table_is_complete_and_ordered() {
    let t = weapon_table();
    assert_eq!(t.len(), BT_MAX_WEAPONS);
    for (i, info) in t.iter().enumerate() {
        assert_eq!(info.token, WeaponToken::ALL[i]);
        assert!(!info.name.is_empty());
        assert!(!info.description.is_empty());
    }
    assert_eq!(t[WeaponToken::Swap.index()].price, 1200);
    assert_eq!(t[WeaponToken::Slick.index()].price, 650);
    assert_eq!(t[WeaponToken::FearedWeird.index()].duration, 3);
    assert_eq!(t[WeaponToken::NoDice.index()].duration, 35);
}

#[test]
fn active_flags_track_on_off() {
    let mut a = ActiveFlags::new();
    assert!(!a.is_active(WeaponToken::Force));
    a.activate(WeaponToken::Force);
    assert!(a.is_active(WeaponToken::Force));
    a.deactivate(WeaponToken::Force);
    assert!(!a.is_active(WeaponToken::Force));
}

#[test]
fn set_is_boolean_not_a_counter() {
    let mut a = ActiveFlags::new();
    a.set(WeaponToken::Speedy, true);
    a.set(WeaponToken::Speedy, true);
    assert_eq!(a.count(WeaponToken::Speedy), 1);
    a.set(WeaponToken::Speedy, false);
    assert!(!a.is_active(WeaponToken::Speedy));
}

/// `drand48()` over the library's generator: the next state as a fraction of 2^48.
fn drand48(rng: &mut Rng) -> f64 {
    rng.lrand48();
    rng.raw() as f64 / ((1u64 << 48) as f64)
}

#[test]
fn rng_test_determinism() {
    let mut rng1 = Rng::new(12345);
    let mut rng2 = Rng::new(12345);
    for _ in 0..100 {
        assert_eq!(rng1.rand(), rng2.rand());
    }
    let mut rng1 = Rng::new(12345);
    let mut rng2 = Rng::new(12345);
    for _ in 0..100 {
        assert_eq!(drand48(&mut rng1), drand48(&mut rng2));
    }
    let mut rng1 = Rng::new(12345);
    let mut rng2 = Rng::new(12345);
    for _ in 0..100 {
        assert_eq!(rng1.lrand48(), rng2.lrand48());
    }
}

#[test]
fn test_different_seeds() {
    let mut rng1 = Rng::new(12345);
    let mut rng2 = Rng::new(54321);
    assert_ne!(rng1.rand(), rng2.rand());

    let mut rng1 = Rng::new(12345);
    let mut rng2 = Rng::new(54321);
    assert_ne!(drand48(&mut rng1), drand48(&mut rng2));

    let mut rng1 = Rng::new(12345);
    let mut rng2 = Rng::new(54321);
    assert_ne!(rng1.lrand48(), rng2.lrand48());
}

#[test]
fn test_drand48_range() {
    let mut rng = Rng::new(12345);
    for _ in 0..10_000 {
        let val = drand48(&mut rng);
        assert!((0.0..1.0).contains(&val), "drand48() value {} out of range", val);
    }
}

#[test]
fn selling_right_after_buying_restores_the_slots() {
    let mut a = Arsenal::new();
    a.buy(WeaponToken::RiseUp);
    a.buy(WeaponToken::Blind);
    a.buy(WeaponToken::RiseUp);
    let before: Vec<(Option<WeaponToken>, u16)> = (0..10).map(|i| (a.token(i), a.quantity(i))).collect();
    assert!(a.buy(WeaponToken::Swap));
    assert!(a.sell(WeaponToken::Swap));
    let after: Vec<(Option<WeaponToken>, u16)> = (0..10).map(|i| (a.token(i), a.quantity(i))).collect();
    assert_eq!(before, after);
    assert!(a.buy(WeaponToken::RiseUp));
    assert!(a.sell(WeaponToken::RiseUp));
    let again: Vec<(Option<WeaponToken>, u16)> = (0..10).map(|i| (a.token(i), a.quantity(i))).collect();
    assert_eq!(before, again);
}

#[test]
fn a_purchase_stacks_onto_its_weapon_before_an_emptied_slot() {
    let mut a = Arsenal::new();
    a.buy(WeaponToken::RiseUp);
    a.buy(WeaponToken::Blind);
    a.use_slot(0);
    assert!(a.buy(WeaponToken::Blind));
    assert_eq!(a.token(1), Some(WeaponToken::Blind));
    assert_eq!(a.quantity(1), 2);
    assert_eq!(a.token(0), None);
    // a weapon held nowhere takes the first empty slot
    assert!(a.buy(WeaponToken::Swap));
    assert_eq!(a.token(0), Some(WeaponToken::Swap));
}

#[test]
fn spy_noise_never_repeats_within_a_side() {
    let mut seen: std::collections::HashSet<u64> = std::collections::HashSet::new();
    for tick in 0..2000u64 {
        assert!(seen.insert(noise_for(tick, 1)), "tick {tick} repeated a noise word");
    }
    assert_eq!(noise_for(5, 0), noise_for(5, 0));
}

#[test]
fn ames_never_shows_the_exact_funds() {
    assert_eq!(adjust_funds(5, WeaponToken::Ames, 0, false), 6);
    assert_eq!(adjust_funds(5, WeaponToken::Ames, 4, false), 10);
    assert_eq!(adjust_funds(5, WeaponToken::Ames, 1 << 33, false), 2);
    assert_eq!(adjust_funds(-1, WeaponToken::Ames, 0, false), 0);
    assert_eq!(adjust_funds(0, WeaponToken::Ames, 12345, false), 0);
    for noise in 0..500u64 {
        let r = adjust_funds(37, WeaponToken::Ames, noise.wrapping_mul(0x9E37_79B9_7F4A_7C15), false);
        assert!(r != 37 && (r - 37).abs() <= 37);
    }
    assert_eq!(adjust_funds(37, WeaponToken::Condor, 99, true), 37);
    assert_eq!(adjust_funds(37, WeaponToken::Ace, 99, false), 37);
}
