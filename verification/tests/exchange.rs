use battletris::arsenal::Arsenal;
use battletris::board::Board;
use battletris::cell::Cell;
use battletris::exchange::{export_arsenal, export_board, import_arsenal, import_board, render_ids};
use battletris::piece::{Piece, PieceKind};
use battletris::game::{bazaar_countdown, count_down};
use battletris::policy::opponent_is_high;
use battletris::weapons::WeaponToken;

#[test]
fn a_board_survives_export_and_import() {
    let mut b = Board::standard(false);
    b.set(0, 27, Some(Cell::die(4)));
    b.set(9, 27, Some(Cell::happy()));
    b.set(3, 10, Some(Cell::color(5)));
    let mut hidden = Cell::structure();
    hidden.conceal();
    b.set(4, 4, Some(hidden));
    let words = export_board(&b);
    assert_eq!(words.len(), (b.width * b.height * 4) as usize);
    // square (0, 27) is index 27 * 10 = 270
    assert_eq!(&words[270 * 4..270 * 4 + 4], &[2, 4, 0, 0]);
    assert_eq!(&words[0..4], &[0, 0, 0, 0]);
    let mut other = Board::standard(false);
    import_board(&mut other, &words);
    for y in 0..b.height {
        for x in 0..b.width {
            assert_eq!(other.get(x, y), b.get(x, y), "square ({x}, {y})");
        }
    }
}

#[test]
fn a_board_import_of_the_wrong_length_is_ignored() {
    let mut b = Board::standard(false);
    b.set(2, 2, Some(Cell::color(1)));
    import_board(&mut b, &[1, 2, 3]);
    assert_eq!(b.get(2, 2), Some(Cell::color(1)));
}

#[test]
fn an_arsenal_survives_export_and_import() {
    let mut a = Arsenal::new();
    assert!(a.buy(WeaponToken::RiseUp));
    assert!(a.buy(WeaponToken::RiseUp));
    assert!(a.buy(WeaponToken::Gimp));
    a.set_slot(5, Some(WeaponToken::Swap), 3);
    let words = export_arsenal(&a);
    assert_eq!(words.len(), 20);
    assert_eq!(&words[0..4], &[7, 2, 33, 1]);
    assert_eq!(&words[4..6], &[-1, 0]);
    assert_eq!(&words[10..12], &[5, 3]);
    let mut b = Arsenal::new();
    import_arsenal(&mut b, &words);
    for i in 0..10 {
        assert_eq!(b.token(i), a.token(i));
        assert_eq!(b.quantity(i), a.quantity(i));
    }
}

#[test]
fn an_arsenal_import_clamps_and_drops_unknown_weapons() {
    let mut words = vec![0i32; 20];
    for i in 0..10 {
        words[2 * i] = -1;
        words[2 * i + 1] = 0;
    }
    words[0] = 7;
    words[1] = 100_000;
    words[2] = 99;
    words[3] = 4;
    words[4] = 12;
    words[5] = -3;
    let mut a = Arsenal::new();
    import_arsenal(&mut a, &words);
    assert_eq!(a.token(0), Some(WeaponToken::RiseUp));
    assert_eq!(a.quantity(0), u16::MAX);
    assert_eq!(a.token(1), None, "index 99 names no weapon");
    assert_eq!(a.token(2), None, "a negative quantity empties the slot");
    assert_eq!(a.quantity(2), 0);
    let mut untouched = Arsenal::new();
    assert!(untouched.buy(WeaponToken::Blind));
    import_arsenal(&mut untouched, &words[..19]);
    assert_eq!(untouched.token(0), Some(WeaponToken::Blind));
}

#[test]
fn the_bazaar_opens_on_every_twentieth_combined_line() {
    assert_eq!(bazaar_countdown(0, 0, 20), (20, false));
    assert_eq!(bazaar_countdown(7, 5, 20), (8, false));
    assert_eq!(bazaar_countdown(12, 8, 8), (20, true));
    assert_eq!(bazaar_countdown(13, 8, 20), (19, false));
    assert_eq!(bazaar_countdown(39, 0, 2), (1, false));
    assert_eq!(bazaar_countdown(41, 0, 1), (19, true));
}

#[test]
fn durations_count_down_and_report_what_ran_out() {
    let mut rem = [0i32; 34];
    rem[WeaponToken::Speedy.index()] = 5;
    rem[WeaponToken::RiseUp.index()] = 2;
    rem[WeaponToken::Blind.index()] = 1;
    let out = count_down(&mut rem, 2);
    assert_eq!(out, vec![WeaponToken::RiseUp, WeaponToken::Blind]);
    assert_eq!(rem[WeaponToken::Speedy.index()], 3);
    assert_eq!(rem[WeaponToken::RiseUp.index()], 0);
    assert_eq!(rem[WeaponToken::Blind.index()], 0);
    assert_eq!(count_down(&mut rem, 0), Vec::<WeaponToken>::new());
    assert_eq!(rem[WeaponToken::Speedy.index()], 3);
}

#[test]
fn a_spied_stack_is_high_from_three_fifths_of_the_height() {
    let (w, h) = (10, 28);
    let mut grid = vec![-2i32; (w * h) as usize];
    assert!(!opponent_is_high(&grid, w, h));
    // a box at row 12: the stack is 16 of 28 rows tall (below 3/5)
    grid[(12 * w + 4) as usize] = 3;
    assert!(!opponent_is_high(&grid, w, h));
    // a box at row 11: 17 of 28 rows (at least 3/5)
    grid[(11 * w + 7) as usize] = 0;
    assert!(opponent_is_high(&grid, w, h));
    assert!(!opponent_is_high(&grid[..50], w, h), "too short for its size");
    assert!(!opponent_is_high(&grid, 0, h));
}

#[test]
fn the_render_view_draws_the_falling_piece_over_the_board() {
    let mut b = Board::standard(false);
    b.set(0, 27, Some(Cell::die(4)));
    let mut hidden = Cell::color(3);
    hidden.conceal();
    b.set(9, 27, Some(hidden));
    let bare = render_ids(&b, None);
    assert_eq!(bare.len(), 280);
    assert_eq!(bare[270], Cell::die(4).id());
    assert_eq!(bare[279], -1, "a concealed box renders as -1");
    assert_eq!(bare[0], -2);
    let p = Piece::construct(PieceKind::Box, 3, 0, 1);
    let seen = render_ids(&b, Some(&p));
    let mut drawn = 0;
    for y in 0..28 {
        for x in 0..10 {
            let k = (y * 10 + x) as usize;
            let from_piece = x >= 3 && x < 11 && y < 8 && p.cells[(x - 3) as usize][y as usize].is_some();
            if from_piece {
                drawn += 1;
                assert_eq!(seen[k], p.cells[(x - 3) as usize][y as usize].unwrap().id());
            } else {
                assert_eq!(seen[k], bare[k]);
            }
        }
    }
    assert_eq!(drawn, 4, "the box's four squares are drawn");
}
