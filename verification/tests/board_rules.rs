use tetris::board::{Screen, COLS, ROWS};
use tetris::shapes::{shape_matrix, BLOCKSLIB, L1, L2, S1, W1};

fn fill_row(s: &mut Screen, r: usize) {
    for c in 4..14 {
        s.0[r][c] = 1;
    }
}

fn is_initial(s: &Screen) -> bool {
    for r in 0..ROWS {
        for c in 0..COLS {
            let playfield = r < 24 && (4..14).contains(&c);
            let expected = if playfield { 0 } else { 1 };
            if s.0[r][c] != expected {
                return false;
            }
        }
    }
    true
}

#[test]
fn new_board_is_walled_empty_playfield() {
    let s = Screen::new();
    assert_eq!(ROWS, 28);
    assert_eq!(COLS, 18);
    assert!(is_initial(&s));
    assert_eq!(s.0[0][4], 0);
    assert_eq!(s.0[23][13], 0);
    assert_eq!(s.0[24][4], 1);
    assert_eq!(s.0[10][3], 1);
    assert_eq!(s.0[10][14], 1);
}

#[test]
fn library_lookup() {
    assert_eq!(shape_matrix(0, 0), L1);
    assert_eq!(shape_matrix(0, 1), L2);
    assert_eq!(shape_matrix(0, 2), L1);
    assert_eq!(shape_matrix(1, 3), S1);
    assert_eq!(shape_matrix(4, 0), W1);
    assert_eq!(shape_matrix(6, 3), BLOCKSLIB[6][3]);
}

#[test]
fn every_library_piece_has_four_cells() {
    for t in 0..7 {
        for s in 0..4 {
            let m = shape_matrix(t, s);
            let count: u32 = m.iter().flatten().map(|&v| v as u32).sum();
            assert_eq!(count, 4);
            assert!(m.iter().flatten().all(|&v| v <= 1));
        }
    }
}

#[test]
fn piece_fits_on_empty_playfield_not_in_walls() {
    let s = Screen::new();
    assert!(s.piece_fits(&L1, 10, 4));
    assert!(s.piece_fits(&L1, 10, 10));
    // the horizontal bar at column 11 reaches the right wall
    assert!(!s.piece_fits(&L1, 10, 11));
    // at column 3 it starts inside the left wall
    assert!(!s.piece_fits(&L1, 10, 3));
    // the vertical bar reaching row 24 meets the floor
    assert!(s.piece_fits(&L2, 20, 4));
    assert!(!s.piece_fits(&L2, 21, 4));
}

#[test]
fn piece_fits_only_meets_cells_that_hold_one() {
    let mut s = Screen::new();
    s.0[12][5] = 1;
    assert!(!s.piece_fits(&S1, 11, 4));
    assert!(s.piece_fits(&S1, 11, 6));
    // a cell holding 2 does not count as a collision
    s.0[12][5] = 2;
    assert!(s.piece_fits(&S1, 11, 4));
}

#[test]
fn lock_adds_the_matrix_cell_by_cell() {
    let mut s = Screen::new();
    s.lock(&W1, 20, 6);
    assert_eq!(s.0[20][6], 0);
    assert_eq!(s.0[20][7], 1);
    assert_eq!(s.0[21][6], 1);
    assert_eq!(s.0[21][7], 1);
    assert_eq!(s.0[21][8], 1);
    assert_eq!(s.0[21][9], 0);
    assert_eq!(s.0[22][7], 0);
    // adding onto an occupied cell counts up
    s.lock(&W1, 20, 6);
    assert_eq!(s.0[21][7], 2);
    // wall cells in the window gain the matrix's zeros only
    let mut t = Screen::new();
    t.lock(&L2, 20, 13);
    assert_eq!(t.0[20][13], 1);
    assert_eq!(t.0[20][14], 1);
    assert_eq!(t.0[23][13], 1);
}

#[test]
fn top_row_occupied_looks_at_row_three_only() {
    let mut s = Screen::new();
    assert!(!s.top_row_occupied());
    s.0[2][8] = 1;
    assert!(!s.top_row_occupied());
    s.0[3][13] = 1;
    assert!(s.top_row_occupied());
}

#[test]
fn row_is_full_and_find_full_rows() {
    let mut s = Screen::new();
    assert!(s.find_full_rows().is_empty());
    fill_row(&mut s, 23);
    fill_row(&mut s, 20);
    s.0[21][4] = 1;
    assert!(s.row_is_full(23));
    assert!(!s.row_is_full(21));
    assert_eq!(s.find_full_rows(), vec![20, 23]);
    // hidden rows and the floor are not counted
    fill_row(&mut s, 2);
    assert_eq!(s.find_full_rows(), vec![20, 23]);
}

#[test]
fn clear_full_rows_drops_the_rows_above() {
    let mut s = Screen::new();
    fill_row(&mut s, 23);
    s.0[22][5] = 1;
    fill_row(&mut s, 21);
    s.0[20][9] = 1;
    s.0[3][7] = 1;
    let cleared = s.clear_full_rows();
    assert_eq!(cleared, 2);
    // row 22 fell by one, row 20 fell by two
    assert_eq!(s.0[23][5], 1);
    assert_eq!(s.0[22][9], 1);
    let filled: u32 = (4..24).flat_map(|r| (4..14).map(move |c| (r, c))).map(|(r, c)| s.0[r][c] as u32).sum();
    assert_eq!(filled, 2);
    // hidden rows and walls are untouched
    assert_eq!(s.0[3][7], 1);
    assert_eq!(s.0[23][3], 1);
    assert!(s.find_full_rows().is_empty());
}

#[test]
fn clear_without_full_rows_changes_nothing() {
    let mut s = Screen::new();
    s.0[23][4] = 1;
    let before = s.0;
    assert_eq!(s.clear_full_rows(), 0);
    assert_eq!(s.0, before);
}

#[test]
fn reset_empties_the_playfield_keeps_walls() {
    let mut s = Screen::new();
    fill_row(&mut s, 22);
    s.0[1][5] = 1;
    s.0[25][2] = 7;
    s.reset();
    assert_eq!(s.0[22][5], 0);
    assert_eq!(s.0[1][5], 0);
    assert_eq!(s.0[25][2], 7);
    s.0[25][2] = 1;
    assert!(is_initial(&s));
}

#[test]
fn scan_stays_on_board_until_the_first_collision() {
    let s = Screen::new();
    // every cell of the bar is read and lies on the board
    assert!(s.scan_stays_on_board(&L2, 10, 5));
    // the top cell meets the floor first: the scan stops there
    assert!(s.scan_stays_on_board(&L2, 26, 5));
    assert!(!s.piece_fits(&L2, 26, 5));
    // the top row of W1 is read off the board before any collision
    assert!(!s.scan_stays_on_board(&W1, 28, 5));
    // a piece wholly past the right edge
    assert!(!s.scan_stays_on_board(&L1, 10, 18));
    // the horizontal bar meets the wall at column 14 before leaving the board
    assert!(s.scan_stays_on_board(&L1, 10, 14));
}
