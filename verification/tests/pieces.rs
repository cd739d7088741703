use battletris::board::Board;
use battletris::cell::CellKind;
use battletris::constants::BT_IVORY;
use battletris::piece::{Piece, PieceKind};

fn count_cells(piece: &Piece) -> usize {
    piece.cells.iter().flatten().filter(|c| c.is_some()).count()
}

#[test]
fn test_el_construct() {
    let piece = Piece::construct(PieceKind::El, 10, 10, 1);
    assert_eq!(piece.x, 10);
    assert_eq!(piece.y, 10);
    assert_eq!(piece.color, 2);
    assert_eq!(piece.rot, 3);
    assert_eq!(piece.orientations, 4);
    assert_eq!(count_cells(&piece), 4);
    assert!(piece.is_mapped(1, 0));
    assert!(piece.is_mapped(1, 1));
    assert!(piece.is_mapped(1, 2));
    assert!(piece.is_mapped(2, 2));
}

#[test]
fn test_rel_construct() {
    let piece = Piece::construct(PieceKind::RevEl, 10, 10, 1);
    assert_eq!(piece.color, 3);
    assert_eq!(count_cells(&piece), 4);
    assert!(piece.is_mapped(2, 0));
    assert!(piece.is_mapped(2, 1));
    assert!(piece.is_mapped(2, 2));
    assert!(piece.is_mapped(1, 2));
}

#[test]
fn test_long_construct() {
    let piece = Piece::construct(PieceKind::Long, 10, 10, 1);
    assert_eq!(piece.color, 6);
    assert_eq!(piece.rot, 4);
    assert_eq!(count_cells(&piece), 4);
    assert!(piece.is_mapped(0, 1));
    assert!(piece.is_mapped(1, 1));
    assert!(piece.is_mapped(2, 1));
    assert!(piece.is_mapped(3, 1));
}

#[test]
fn test_long_dong_construct() {
    let piece = Piece::construct(PieceKind::LongDong, 10, 10, 1);
    assert_eq!(piece.color, 6);
    assert_eq!(piece.rot, 8);
    assert_eq!(count_cells(&piece), 8);
    for i in 0..8 {
        assert!(piece.is_mapped(i, 0));
    }
}

#[test]
fn test_four_by_four_construct() {
    let piece = Piece::construct(PieceKind::FourByFour, 10, 10, 1);
    assert_eq!(count_cells(&piece), 12);
    assert!(piece.is_mapped(0, 0));
    assert!(piece.is_mapped(1, 0));
    assert!(piece.is_mapped(2, 0));
    assert!(piece.is_mapped(3, 0));
    assert!(piece.is_mapped(0, 3));
    assert!(piece.is_mapped(1, 3));
    assert!(piece.is_mapped(2, 3));
    assert!(piece.is_mapped(3, 3));
    assert!(piece.is_mapped(0, 1));
    assert!(piece.is_mapped(0, 2));
    assert!(piece.is_mapped(3, 1));
    assert!(piece.is_mapped(3, 2));
}

#[test]
fn test_die_construct() {
    let piece = Piece::construct(PieceKind::Die, 10, 10, 3);
    assert_eq!(piece.color, BT_IVORY);
    assert_eq!(piece.rot, 0);
    assert_eq!(count_cells(&piece), 1);
    assert!(piece.is_mapped(1, 1));
    if let Some(cell) = piece.cells[1][1] {
        match cell.kind {
            CellKind::Die(v) => assert_eq!(v, 3),
            _ => panic!("Expected Die cell"),
        }
    } else {
        panic!("Expected Some cell at (1, 1)");
    }
}

#[test]
fn test_happy_construct() {
    let piece = Piece::construct(PieceKind::Happy, 10, 10, 1);
    assert_eq!(piece.color, BT_IVORY);
    assert_eq!(piece.rot, 0);
    assert_eq!(count_cells(&piece), 1);
    assert!(piece.is_mapped(1, 1));
    if let Some(cell) = piece.cells[1][1] {
        match cell.kind {
            CellKind::Happy { landed } => assert!(!landed),
            _ => panic!("Expected Happy cell"),
        }
    } else {
        panic!("Expected Some cell at (1, 1)");
    }
}

#[test]
fn test_rotate_returns_false_for_no_rot() {
    let board = Board::new(40, 40, false);
    let mut piece = Piece::construct(PieceKind::Box, 10, 10, 1);
    assert_eq!(piece.rot, 0);
    assert!(!piece.rotate(&board, false));
}

#[test]
fn test_rotate_cycle_el() {
    let board = Board::new(40, 40, false);
    let mut piece = Piece::construct(PieceKind::El, 10, 10, 1);
    let initial = piece.cells;
    for _ in 0..4 {
        assert!(piece.rotate(&board, false));
    }
    assert_eq!(piece.cells, initial);
}

#[test]
fn test_rotate_cycle_long() {
    let board = Board::new(40, 40, false);
    let mut piece = Piece::construct(PieceKind::Long, 10, 10, 1);
    let initial = piece.cells;
    for _ in 0..4 {
        assert!(piece.rotate(&board, false));
    }
    assert_eq!(piece.cells, initial);
}

#[test]
fn test_rotate_cycle_tower() {
    let board = Board::new(40, 40, false);
    let mut piece = Piece::construct(PieceKind::Tower, 10, 10, 1);
    let initial = piece.cells;
    for _ in 0..4 {
        assert!(piece.rotate(&board, false));
    }
    assert_eq!(piece.cells, initial);
}

#[test]
fn test_rotate_cycle_star() {
    let board = Board::new(40, 40, false);
    let mut piece = Piece::construct(PieceKind::Star, 10, 10, 1);
    let initial = piece.cells;
    for _ in 0..2 {
        assert!(piece.rotate(&board, false));
    }
    assert_eq!(piece.cells, initial);
}

#[test]
fn test_rotate_cycle_weirding() {
    let board = Board::new(40, 40, false);
    let mut piece = Piece::construct(PieceKind::WeirdLong, 10, 10, 1);
    let initial = piece.cells;
    for _ in 0..6 {
        assert!(piece.rotate(&board, false));
    }
    assert_eq!(piece.cells, initial);
}

#[test]
fn test_rotate_cycle_wall() {
    let board = Board::new(40, 40, false);
    let mut piece = Piece::construct(PieceKind::Wall, 10, 10, 1);
    let initial = piece.cells;
    for _ in 0..4 {
        assert!(piece.rotate(&board, false));
    }
    assert_eq!(piece.cells, initial);
}

#[test]
fn test_move_to_empty_space() {
    let board = Board::new(40, 40, false);
    let mut piece = Piece::construct(PieceKind::Long, 10, 10, 1);
    assert_eq!(piece.x, 10);
    assert_eq!(piece.y, 10);
    assert!(piece.move_to(&board, 15, 20));
    assert_eq!(piece.x, 15);
    assert_eq!(piece.y, 20);
}

#[test]
fn test_move_to_off_left_edge() {
    let board = Board::new(40, 40, false);
    let mut piece = Piece::construct(PieceKind::Long, 10, 10, 1);
    let result = piece.move_to(&board, -1, 10);
    assert!(!result);
    assert_eq!(piece.x, 10);
    assert_eq!(piece.y, 10);
}

#[test]
fn test_reset() {
    let mut piece = Piece::construct(PieceKind::Long, 10, 10, 1);
    piece.orientation = 2;
    piece.state = 1;
    piece.reset();
    assert_eq!(count_cells(&piece), 0);
    assert_eq!(piece.orientation, 0);
    assert_eq!(piece.state, 0);
}

#[test]
fn test_plug_construct() {
    let piece = Piece::construct(PieceKind::Plug, 10, 10, 1);
    assert_eq!(piece.color, 7);
    assert_eq!(count_cells(&piece), 4);
    assert!(piece.is_mapped(0, 2));
    assert!(piece.is_mapped(1, 2));
    assert!(piece.is_mapped(1, 1));
    assert!(piece.is_mapped(2, 2));
}

#[test]
fn test_box_construct() {
    let piece = Piece::construct(PieceKind::Box, 10, 10, 1);
    assert_eq!(piece.color, 8);
    assert_eq!(piece.rot, 0);
    assert_eq!(count_cells(&piece), 4);
    assert!(piece.is_mapped(1, 1));
    assert!(piece.is_mapped(1, 2));
    assert!(piece.is_mapped(2, 1));
    assert!(piece.is_mapped(2, 2));
}

#[test]
fn a_successful_turn_can_always_be_turned_back() {
    let board = Board::standard(false);
    for kind in [PieceKind::El, PieceKind::RevEl, PieceKind::SlideRight, PieceKind::SlideLeft, PieceKind::Long, PieceKind::Plug] {
        let start = Piece::construct(kind, 3, 5, 1);
        let mut piece = start.clone();
        assert!(piece.rotate(&board, false), "{kind:?} turns on an empty board");
        assert!(piece.rotate(&board, true), "{kind:?} turns back");
        assert_eq!(piece.cells, start.cells);
        assert_eq!(piece.orientation, start.orientation);
    }
}
