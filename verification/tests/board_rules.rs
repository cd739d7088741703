use battletris::ai::{board_features, board_top, surface};
use battletris::board::Board;
use battletris::cell::{Cell, CellKind};
use battletris::constants::{BT_BAD_MOVE, BT_GREEN, BT_MISSED_SMILEY, BT_NEAR_DEATH};
use battletris::piece::{Piece, PieceKind};
use battletris::rng::Rng;
use battletris::weapons::WeaponToken;

fn fill_row(b: &mut Board, y: i32, cell: Cell) {
    for x in 0..b.width {
        b.set(x, y, Some(cell));
    }
}

#[test]
fn a_single_line_pays_its_pips() {
    let mut b = Board::standard(false);
    fill_row(&mut b, 27, Cell::die(3));
    let r = b.check_lines();
    assert_eq!(r.lines, 1);
    assert_eq!(r.value, 30);
    assert_eq!(r.funds, 30);
    for x in 0..b.width {
        assert_eq!(b.get(x, 27), None);
    }
}

#[test]
fn a_double_earns_twice_its_pips() {
    let mut b = Board::standard(false);
    fill_row(&mut b, 27, Cell::die(3));
    fill_row(&mut b, 26, Cell::die(2));
    b.set(4, 25, Some(Cell::color(2)));
    let r = b.check_lines();
    assert_eq!(r.lines, 2);
    assert_eq!(r.value, 50);
    assert_eq!(r.funds, 100);
    // the lone box above dropped two rows
    assert_eq!(b.get(4, 27), Some(Cell::color(2)));
    assert_eq!(b.get(4, 25), None);
    assert!(!b.idiot);
}

#[test]
fn a_cleared_happy_face_pays_150() {
    let mut b = Board::standard(false);
    fill_row(&mut b, 27, Cell::color(3));
    b.set(5, 27, Some(Cell::happy()));
    let r = b.check_lines();
    assert_eq!(r.value, 150);
    assert_eq!(r.funds, 150);
}

#[test]
fn a_missed_happy_face_turns_into_a_frown() {
    let mut b = Board::standard(false);
    b.set(5, 27, Some(Cell::happy()));
    let r = b.check_lines();
    assert_eq!(r.lines, 0);
    assert_eq!(r.funds, 0);
    let c = b.get(5, 27).unwrap();
    assert_eq!(c.kind, CellKind::Happy { landed: true });
    assert_eq!(c.value(), 0);
    assert_eq!(b.flush_idiot(), Some(BT_MISSED_SMILEY));
}

#[test]
fn a_tall_stack_raises_near_death() {
    let mut b = Board::standard(false);
    for y in 5..28 {
        b.set(0, y, Some(Cell::color(2)));
    }
    let r = b.check_lines();
    assert_eq!(r.lines, 0);
    assert_eq!(b.flush_idiot(), Some(BT_NEAR_DEATH));
}

#[test]
fn sealing_a_hole_is_a_bad_move() {
    let mut b = Board::standard(false);
    b.set(3, 27, Some(Cell::color(2)));
    b.set(5, 27, Some(Cell::color(2)));
    let mut p = Piece::construct(PieceKind::Long, 0, 0, 1);
    // Long lies on grid row 1: put it across columns 3..7 of row 26.
    assert!(p.move_to(&b, 3, 25));
    p.land(&mut b);
    assert_eq!(b.flush_idiot(), Some(BT_BAD_MOVE));
    assert_eq!(b.get(3, 26), Some(Cell::color(6)));
}

#[test]
fn a_clean_landing_is_not_a_bad_move() {
    let mut b = Board::standard(false);
    let mut p = Piece::construct(PieceKind::Long, 0, 0, 1);
    assert!(p.move_to(&b, 3, 26));
    p.land(&mut b);
    assert_eq!(b.flush_idiot(), None);
    for x in 3..7 {
        assert!(b.occupied(x, 27));
    }
}

#[test]
fn a_garbage_line_lifts_the_stack_and_leaves_one_gap() {
    let mut b = Board::standard(false);
    b.set(2, 27, Some(Cell::die(5)));
    let mut rng = Rng::new(7);
    let mut probe = Rng::new(7);
    let hole = probe.rand_below(b.width);
    b.insert_line(&mut rng);
    assert_eq!(b.get(2, 26), Some(Cell::die(5)));
    let mut gaps = 0;
    for x in 0..b.width {
        match b.get(x, 27) {
            Some(c) => assert_eq!(c, Cell::color(BT_GREEN)),
            None => {
                gaps += 1;
                assert_eq!(x, hole);
            }
        }
    }
    assert_eq!(gaps, 1);
    assert_eq!(rng.raw(), probe.raw());
}

#[test]
fn upbyside_on_then_off_restores_the_board() {
    let mut b = Board::standard(false);
    b.set(1, 27, Some(Cell::die(1)));
    b.set(8, 20, Some(Cell::color(4)));
    let before: Vec<Option<Cell>> = (0..28).flat_map(|y| (0..10).map(move |x| (x, y))).map(|(x, y)| b.get(x, y)).collect();
    let mut rng = Rng::new(1);
    b.set_active(WeaponToken::Upbyside, true);
    b.apply_weapon(WeaponToken::Upbyside, &mut rng);
    assert!(b.upside);
    assert_eq!(b.get(1, 0), Some(Cell::die(1)));
    assert_eq!(b.get(8, 7), Some(Cell::color(4)));
    b.revert_weapon(WeaponToken::Upbyside);
    b.set_active(WeaponToken::Upbyside, false);
    assert!(!b.upside);
    let after: Vec<Option<Cell>> = (0..28).flat_map(|y| (0..10).map(move |x| (x, y))).map(|(x, y)| b.get(x, y)).collect();
    assert_eq!(before, after);
}

#[test]
fn flip_out_mirrors_left_to_right() {
    let mut b = Board::standard(false);
    b.set(0, 27, Some(Cell::die(2)));
    let mut rng = Rng::new(1);
    b.apply_weapon(WeaponToken::FlipOut, &mut rng);
    assert_eq!(b.get(9, 27), Some(Cell::die(2)));
    assert_eq!(b.get(0, 27), None);
    b.apply_weapon(WeaponToken::FlipOut, &mut rng);
    assert_eq!(b.get(0, 27), Some(Cell::die(2)));
}

#[test]
fn gimp_and_twilight_change_boxes_in_place() {
    let mut b = Board::standard(false);
    b.set(0, 27, Some(Cell::die(4)));
    b.set(1, 27, Some(Cell::structure()));
    let mut rng = Rng::new(1);
    b.apply_weapon(WeaponToken::Gimp, &mut rng);
    assert_eq!(b.get(0, 27), Some(Cell::gimp(4)));
    assert_eq!(b.get(1, 27), Some(Cell::structure()));
    b.apply_weapon(WeaponToken::Twilight, &mut rng);
    assert_eq!(b.get(0, 27).unwrap().id(), -1);
    assert_eq!(b.get(0, 27).unwrap().value(), 4);
}

#[test]
fn missing_removes_exactly_one_removable_box() {
    let mut b = Board::standard(false);
    b.set(0, 27, Some(Cell::die(4)));
    b.set(1, 27, Some(Cell::structure()));
    let mut rng = Rng::new(3);
    b.apply_weapon(WeaponToken::Missing, &mut rng);
    assert_eq!(b.get(0, 27), None);
    assert_eq!(b.get(1, 27), Some(Cell::structure()));
}

#[test]
fn bottle_walls_go_up_and_come_down() {
    let mut b = Board::standard(false);
    let mut rng = Rng::new(3);
    b.set_active(WeaponToken::Bottle, true);
    b.apply_weapon(WeaponToken::Bottle, &mut rng);
    for y in 10..18 {
        for x in [0, 1, 2, 7, 8, 9] {
            assert_eq!(b.get(x, y), Some(Cell::structure()));
        }
        for x in 3..7 {
            assert_eq!(b.get(x, y), None);
        }
    }
    b.revert_weapon(WeaponToken::Bottle);
    for y in 0..28 {
        for x in 0..10 {
            assert_eq!(b.get(x, y), None);
        }
    }
}

#[test]
fn fall_out_empties_the_middle_columns() {
    let mut b = Board::standard(false);
    for x in 0..10 {
        b.set(x, 27, Some(Cell::color(2)));
        b.set(x, 20, Some(Cell::color(3)));
    }
    let mut rng = Rng::new(3);
    b.set_active(WeaponToken::FallOut, true);
    b.apply_weapon(WeaponToken::FallOut, &mut rng);
    for y in 0..28 {
        for x in 2..8 {
            assert_eq!(b.get(x, y), None);
        }
    }
    assert_eq!(b.get(0, 27), Some(Cell::color(2)));
    assert_eq!(b.get(9, 20), Some(Cell::color(3)));
}

#[test]
fn piece_it_drops_a_box_in_the_middle_half() {
    let mut b = Board::standard(false);
    let mut rng = Rng::new(11);
    b.apply_weapon(WeaponToken::PieceIt, &mut rng);
    let mut found = 0;
    for y in 0..28 {
        for x in 0..10 {
            if b.get(x, y).is_some() {
                found += 1;
                assert!((7..21).contains(&y));
            }
        }
    }
    assert_eq!(found, 1);
}

#[test]
fn swapping_cells_twice_restores_both_boards() {
    let mut a = Board::standard(false);
    let mut c = Board::standard(true);
    a.set(1, 1, Some(Cell::die(1)));
    c.set(2, 2, Some(Cell::die(2)));
    a.swap_cells(&mut c);
    assert_eq!(a.get(2, 2), Some(Cell::die(2)));
    assert_eq!(c.get(1, 1), Some(Cell::die(1)));
    a.swap_cells(&mut c);
    assert_eq!(a.get(1, 1), Some(Cell::die(1)));
    assert_eq!(c.get(2, 2), Some(Cell::die(2)));
}

#[test]
fn board_top_and_features_read_the_stack() {
    let mut b = Board::standard(true);
    assert_eq!(board_top(&b), 28);
    for x in 0..10 {
        b.set(x, 27, Some(Cell::color(2)));
    }
    b.set(4, 25, Some(Cell::color(2)));
    assert_eq!(board_top(&b), 25);
    let f = board_features(&b);
    assert_eq!(f.top, 25);
    assert_eq!(f.tops[4], 25);
    assert_eq!(f.tops[0], 27);
    assert_eq!(f.lines, 1);
    // one hole under the box at column 4, row 26, open to the side
    assert_eq!(f.holes, vec![(0, true)]);
    // steps: col0 vs col1 = 0, then 0,0,0, |25-27|^2 = 4, |27-25|^2 = 4, 0,..; last counted twice (0)
    assert_eq!(f.roughness, 8);
    let (agg, bump) = surface(&f.tops, b.height);
    assert_eq!(agg, 9 * 1 + 3);
    assert_eq!(bump, 4);
}

#[test]
fn a_flipped_board_closes_full_rows_toward_the_top() {
    let mut b = Board::standard(false);
    b.set_active(WeaponToken::Upbyside, true);
    fill_row(&mut b, 3, Cell::die(2));
    b.set(4, 5, Some(Cell::color(1)));
    b.set(6, 2, Some(Cell::color(5)));
    let r = b.check_lines();
    assert_eq!(r.lines, 1);
    assert_eq!(r.value, 20);
    assert_eq!(r.funds, 20);
    // rows beneath the cleared one rise by one; rows above it stay
    assert_eq!(b.get(4, 4), Some(Cell::color(1)));
    assert_eq!(b.get(4, 5), None);
    assert_eq!(b.get(6, 2), Some(Cell::color(5)));
    for x in 0..b.width {
        assert_eq!(b.get(x, 27), None);
        assert_eq!(b.get(x, 3), None);
    }
}

#[test]
fn a_flipped_board_clears_two_adjacent_rows() {
    let mut b = Board::standard(false);
    b.set_active(WeaponToken::Upbyside, true);
    fill_row(&mut b, 3, Cell::die(1));
    fill_row(&mut b, 4, Cell::die(2));
    b.set(7, 6, Some(Cell::color(1)));
    let r = b.check_lines();
    assert_eq!(r.lines, 2);
    assert_eq!(r.value, 30);
    assert_eq!(r.funds, 60);
    assert_eq!(b.get(7, 4), Some(Cell::color(1)));
    assert_eq!(b.get(7, 6), None);
}

#[test]
fn the_force_empties_a_full_row_in_place() {
    let mut b = Board::standard(false);
    b.set_active(WeaponToken::Force, true);
    fill_row(&mut b, 20, Cell::die(1));
    b.set(2, 19, Some(Cell::color(3)));
    let r = b.check_lines();
    assert_eq!(r.lines, 1);
    assert_eq!(r.value, 10);
    for x in 0..b.width {
        assert_eq!(b.get(x, 20), None);
    }
    // the box above does not fall
    assert_eq!(b.get(2, 19), Some(Cell::color(3)));
}

#[test]
fn fall_out_on_a_flipped_board_empties_the_middle_columns() {
    let mut b = Board::standard(false);
    let mut rng = Rng::new(3);
    b.set_active(WeaponToken::Upbyside, true);
    b.apply_weapon(WeaponToken::Upbyside, &mut rng);
    for x in 0..10 {
        b.set(x, 0, Some(Cell::color(2)));
        b.set(x, 7, Some(Cell::color(3)));
    }
    b.set_active(WeaponToken::FallOut, true);
    b.apply_weapon(WeaponToken::FallOut, &mut rng);
    for y in 0..28 {
        for x in 2..8 {
            assert_eq!(b.get(x, y), None);
        }
    }
    assert_eq!(b.get(0, 0), Some(Cell::color(2)));
    assert_eq!(b.get(9, 7), Some(Cell::color(3)));
}

#[test]
fn under_bottle_only_the_neck_drops_above_the_band() {
    let mut b = Board::standard(false);
    b.set_active(WeaponToken::Bottle, true);
    fill_row(&mut b, 27, Cell::die(1));
    b.set(5, 12, Some(Cell::color(4)));
    b.set(0, 12, Some(Cell::color(6)));
    let r = b.check_lines();
    assert_eq!(r.lines, 1);
    assert_eq!(r.value, 10);
    assert_eq!(r.funds, 10);
    // the neck column falls one row, the shoulder beside it stays
    assert_eq!(b.get(5, 13), Some(Cell::color(4)));
    assert_eq!(b.get(5, 12), None);
    assert_eq!(b.get(0, 12), Some(Cell::color(6)));
    for x in 0..10 {
        assert_eq!(b.get(x, 27), None);
    }
}

#[test]
fn under_bottle_nothing_clears_without_a_full_row() {
    let mut b = Board::standard(false);
    b.set_active(WeaponToken::Bottle, true);
    b.set(5, 27, Some(Cell::color(4)));
    let r = b.check_lines();
    assert_eq!((r.lines, r.value, r.funds), (0, 0, 0));
    assert_eq!(b.get(5, 27), Some(Cell::color(4)));
}

#[test]
fn fall_out_under_bottle_drains_the_neck_but_not_the_shoulders() {
    let mut b = Board::standard(false);
    b.set_active(WeaponToken::Bottle, true);
    b.set(5, 25, Some(Cell::color(2)));
    b.set(5, 5, Some(Cell::color(2)));
    b.set(2, 5, Some(Cell::color(3)));
    b.set(0, 27, Some(Cell::color(4)));
    let mut rng = Rng::new(3);
    b.set_active(WeaponToken::FallOut, true);
    b.apply_weapon(WeaponToken::FallOut, &mut rng);
    assert_eq!(b.get(5, 25), None);
    assert_eq!(b.get(5, 5), None);
    assert_eq!(b.get(2, 5), Some(Cell::color(3)));
    assert_eq!(b.get(0, 27), Some(Cell::color(4)));
}

#[test]
fn a_board_of_any_size_whose_squares_fit_can_be_made() {
    let b = Board::new(i32::MAX - 5, 0, false);
    assert_eq!(b.width, i32::MAX - 5);
    assert_eq!(b.height, 0);
    let c = Board::new(3, 4, true);
    assert!(c.computer);
    for y in 0..4 {
        for x in 0..3 {
            assert!(c.get(x, y).is_none());
        }
    }
}

#[test]
fn boxes_worth_more_than_a_byte_are_tallied_in_full() {
    let mut b = Board::standard(false);
    fill_row(&mut b, 27, Cell::gimp(1000));
    fill_row(&mut b, 26, Cell::gimp(-7));
    let r = b.check_lines();
    assert_eq!(r.lines, 2);
    assert_eq!(r.value, 10 * 1000 + 10 * -7);
    assert_eq!(r.funds, (10 * 1000 + 10 * -7) * 2);
}

#[test]
fn under_bottle_the_scan_clears_a_full_stack_and_stops() {
    let mut b = Board::standard(false);
    b.set_active(WeaponToken::Bottle, true);
    for y in 20..28 {
        fill_row(&mut b, y, Cell::die(1));
    }
    let r = b.check_lines();
    assert_eq!((r.lines, r.value, r.funds), (8, 80, 640));
    for y in 0..28 {
        for x in 0..10 {
            assert_eq!(b.get(x, y), None);
        }
    }
}
