use battletris::board::Board;
use battletris::cell::Cell;
use battletris::landing::landings;
use battletris::piece::{Piece, PieceKind};

fn columns_of(out: &[battletris::landing::Landing], orientation: i32) -> Vec<i32> {
    out.iter().filter(|e| e.placement.orientation == orientation).map(|e| e.placement.x).collect()
}

#[test]
fn a_box_lands_centre_out_on_an_empty_board() {
    let board = Board::standard(true);
    let piece = Piece::construct(PieceKind::Box, 5, 0, 1);
    let out = landings(&board, &piece);
    assert_eq!(out.len(), 36);
    assert_eq!(columns_of(&out, 0), vec![5, 6, 4, 7, 3, 2, 1, 0, -1]);
    for e in &out {
        assert!(e.placement.orientation >= 0 && e.placement.orientation < piece.orientations);
        assert_eq!(e.piece.x, e.placement.x);
        assert_eq!(e.piece.y, 25);
        assert_eq!(e.lines, 0);
        let x = e.placement.x;
        assert!(e.board.get(x + 1, 26).is_some());
        assert!(e.board.get(x + 2, 27).is_some());
        assert!(e.board.get(x + 1, 25).is_none());
    }
}

#[test]
fn a_long_piece_lies_flat_then_stands_up() {
    let board = Board::standard(true);
    let piece = Piece::construct(PieceKind::Long, 5, 0, 1);
    let out = landings(&board, &piece);
    assert_eq!(columns_of(&out, 0), vec![5, 6, 4, 3, 2, 1, 0]);
    let upright: Vec<&battletris::landing::Landing> = out.iter().filter(|e| e.placement.orientation == 1).collect();
    assert_eq!(upright.len(), 10);
    for e in &out {
        assert!(e.placement.x >= -7 && e.placement.x < board.width);
        assert_eq!(e.lines, 0);
    }
    let flat = &out[0];
    for x in 5..9 {
        assert!(flat.board.get(x, 27).is_some());
    }
}

#[test]
fn a_landing_that_completes_two_rows_counts_and_clears_them() {
    let mut board = Board::standard(true);
    for y in 26..28 {
        for x in 0..board.width {
            if x != 6 && x != 7 {
                board.set(x, y, Some(Cell::color(2)));
            }
        }
    }
    let piece = Piece::construct(PieceKind::Box, 5, 0, 1);
    let out = landings(&board, &piece);
    let e = &out[0];
    assert_eq!(e.placement.x, 5);
    assert_eq!(e.placement.orientation, 0);
    assert_eq!(e.lines, 2);
    for y in 0..board.height {
        for x in 0..board.width {
            assert!(e.board.get(x, y).is_none());
        }
    }
    let beside = &out[1];
    assert_eq!(beside.placement.x, 6);
    assert_eq!(beside.lines, 0);
    assert_eq!(beside.piece.y, 23);
}

#[test]
fn a_piece_that_fits_nowhere_has_no_landing() {
    let mut board = Board::standard(true);
    for y in 0..board.height {
        for x in 0..board.width {
            board.set(x, y, Some(Cell::color(3)));
        }
    }
    let piece = Piece::construct(PieceKind::Box, 5, 0, 1);
    assert!(landings(&board, &piece).is_empty());
}

#[test]
fn a_piece_over_a_fall_out_hole_drops_out_of_the_board() {
    let mut board = Board::standard(true);
    board.set_active(battletris::weapons::WeaponToken::FallOut, true);
    let piece = Piece::construct(PieceKind::Box, 5, 0, 1);
    let out = landings(&board, &piece);
    let mid = out.iter().find(|e| e.placement.orientation == 0 && e.placement.x == 4).unwrap();
    assert_eq!(mid.piece.y, 34);
    for y in 0..28 {
        for x in 0..10 {
            assert!(mid.board.get(x, y).is_none());
        }
    }
    let edge = out.iter().find(|e| e.placement.orientation == 0 && e.placement.x == 0).unwrap();
    assert_eq!(edge.piece.y, 25);
    assert!(edge.board.get(1, 26).is_some());
}
