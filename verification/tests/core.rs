use term_life::board::get_index;
use term_life::board::Board;

#[test]
fn index_is_row_major() {
    assert_eq!(get_index(5, 2, 3), 17);
    assert_eq!(get_index(5, 0, 0), 0);
    assert_eq!(get_index(5, 4, 0), 4);
}

#[test]
fn new_board_is_all_dead() {
    let b = Board::new(4, 3);
    assert_eq!(b.width, 4);
    assert_eq!(b.height, 3);
    assert_eq!(b.cells.len(), 12);
    for x in 0..4 {
        for y in 0..3 {
            assert!(!b.get_cell(x, y));
        }
    }
}

#[test]
fn get_cell_is_dead_out_of_bounds() {
    let mut b = Board::new(3, 3);
    for x in 0..3 {
        for y in 0..3 {
            b.set_cell(x, y, true);
        }
    }
    assert!(!b.get_cell(3, 0));
    assert!(!b.get_cell(0, 3));
    assert!(!b.get_cell(3, 3));
    assert!(!b.get_cell(100, 1));
    assert!(!b.get_cell(1, 100));
    assert!(!b.get_cell(u32::MAX, u32::MAX));
    assert!(b.get_cell(2, 2));
}

#[test]
fn set_cell_then_read_back() {
    let mut b = Board::new(3, 2);
    b.set_cell(1, 1, true);
    assert!(b.get_cell(1, 1));
    assert!(!b.get_cell(0, 0));
    b.set_cell(1, 1, false);
    assert!(!b.get_cell(1, 1));
}

#[test]
fn neighbours_counts_grid_bounded_window() {
    let mut b = Board::new(3, 3);
    b.set_cell(0, 0, true);
    b.set_cell(1, 0, true);
    b.set_cell(2, 0, true);
    b.set_cell(0, 1, true);
    // centre sees four alive neighbours, itself dead
    assert_eq!(b.get_neighbours(1, 1), 4);
    // corner sees only its in-grid window; its own state never counts
    assert_eq!(b.get_neighbours(0, 0), 2);
    assert_eq!(b.get_neighbours(2, 0), 1);
    // edge cell below the row
    assert_eq!(b.get_neighbours(1, 2), 1);
    // a full ring around the centre
    let mut full = Board::new(3, 3);
    for x in 0..3 {
        for y in 0..3 {
            full.set_cell(x, y, true);
        }
    }
    assert_eq!(full.get_neighbours(1, 1), 8);
}

#[test]
fn neighbours_out_of_grid_never_contribute() {
    let mut b = Board::new(2, 2);
    for x in 0..2 {
        for y in 0..2 {
            b.set_cell(x, y, true);
        }
    }
    // every neighbour window here extends past the grid on two sides
    assert_eq!(b.get_neighbours(0, 0), 3);
    assert_eq!(b.get_neighbours(1, 1), 3);
    // a coordinate outside the grid still gets a bounds-safe answer
    assert_eq!(b.get_neighbours(2, 1), 2);
}

#[test]
fn all_dead_board_stays_dead_with_zero_updates() {
    let mut b = Board::new(3, 3);
    let updated = b.tick();
    assert_eq!(updated, 0);
    for x in 0..3 {
        for y in 0..3 {
            assert!(!b.get_cell(x, y));
        }
    }
}

#[test]
fn tick_is_deterministic_from_a_snapshot() {
    let mut a = Board::new(6, 6);
    a.set_cell(1, 1, true);
    a.set_cell(2, 1, true);
    a.set_cell(3, 2, true);
    a.set_cell(1, 3, true);
    a.set_cell(4, 4, true);
    let mut b = Board {
        width: a.width,
        height: a.height,
        cells: a.cells.clone(),
    };
    let ua = a.tick();
    let ub = b.tick();
    assert_eq!(ua, ub);
    assert_eq!(a.cells, b.cells);
}

#[test]
fn blinker_oscillates_with_period_two() {
    let mut b = Board::new(5, 5);
    b.set_cell(1, 2, true);
    b.set_cell(2, 2, true);
    b.set_cell(3, 2, true);

    let updated = b.tick();
    // the horizontal ends die, the vertical ends are born
    assert_eq!(updated, 4);
    for x in 0..5 {
        for y in 0..5 {
            let expect = x == 2 && (y == 1 || y == 2 || y == 3);
            assert_eq!(b.get_cell(x, y), expect, "after one tick at ({x},{y})");
        }
    }

    let updated2 = b.tick();
    assert_eq!(updated2, 4);
    for x in 0..5 {
        for y in 0..5 {
            let expect = y == 2 && (x == 1 || x == 2 || x == 3);
            assert_eq!(b.get_cell(x, y), expect, "after two ticks at ({x},{y})");
        }
    }
}

#[test]
fn lonely_cell_dies_and_counts_as_update() {
    let mut b = Board::new(3, 3);
    b.set_cell(1, 1, true);
    let updated = b.tick();
    assert_eq!(updated, 1);
    assert!(!b.get_cell(1, 1));
}

#[test]
fn block_is_a_still_life() {
    let mut b = Board::new(4, 4);
    b.set_cell(1, 1, true);
    b.set_cell(2, 1, true);
    b.set_cell(1, 2, true);
    b.set_cell(2, 2, true);
    let updated = b.tick();
    assert_eq!(updated, 0);
    assert!(b.get_cell(1, 1) && b.get_cell(2, 1) && b.get_cell(1, 2) && b.get_cell(2, 2));
}

#[test]
fn overcrowded_cell_dies() {
    let mut b = Board::new(3, 3);
    for x in 0..3 {
        for y in 0..3 {
            b.set_cell(x, y, true);
        }
    }
    b.tick();
    // the centre has eight neighbours and dies of overcrowding
    assert!(!b.get_cell(1, 1));
    // the corners keep exactly three neighbours and survive
    assert!(b.get_cell(0, 0) && b.get_cell(2, 0) && b.get_cell(0, 2) && b.get_cell(2, 2));
}

#[test]
fn set_size_discards_content_and_resizes() {
    let mut b = Board::new(3, 3);
    b.set_cell(1, 1, true);
    b.set_size(7, 2);
    assert_eq!(b.width, 7);
    assert_eq!(b.height, 2);
    assert_eq!(b.cells.len(), 14);
}

#[test]
fn randomize_keeps_dimensions_and_storage() {
    let mut b = Board::new(8, 5);
    b.randomize_cells();
    assert_eq!(b.width, 8);
    assert_eq!(b.height, 5);
    assert_eq!(b.cells.len(), 40);
}
