use sudoku_solver::grid::{create_board, flatten_board, get_cell, next_item};
use sudoku_solver::tracker::Tracker;

#[test]
fn get_cell_numbers_the_boxes_row_by_row() {
    assert_eq!(get_cell(0, 0), 0);
    assert_eq!(get_cell(2, 2), 0);
    assert_eq!(get_cell(0, 3), 1);
    assert_eq!(get_cell(1, 8), 2);
    assert_eq!(get_cell(3, 0), 3);
    assert_eq!(get_cell(4, 4), 4);
    assert_eq!(get_cell(5, 6), 5);
    assert_eq!(get_cell(6, 2), 6);
    assert_eq!(get_cell(8, 5), 7);
    assert_eq!(get_cell(8, 8), 8);
}

#[test]
fn create_board_lays_cells_out_row_major() {
    let mut flat = [0u8; 81];
    for p in 0..81 {
        flat[p] = (p % 10) as u8;
    }
    let board = create_board(&flat);
    assert_eq!(board[0][0], 0);
    assert_eq!(board[0][8], 8);
    assert_eq!(board[1][0], 9);
    assert_eq!(board[1][1], 0);
    assert_eq!(board[8][8], 0);
    assert_eq!(board[7][4], ((7 * 9 + 4) % 10) as u8);
}

#[test]
fn flatten_board_undoes_create_board() {
    let mut flat = [0u8; 81];
    for p in 0..81 {
        flat[p] = ((p * 7) % 10) as u8;
    }
    let board = create_board(&flat);
    assert_eq!(flatten_board(&board), flat);
    let mut rows = [[0u8; 9]; 9];
    rows[2][5] = 4;
    let out = flatten_board(&rows);
    assert_eq!(out[23], 4);
    assert_eq!(out.iter().filter(|&&d| d != 0).count(), 1);
}

#[test]
fn next_item_takes_the_current_cell_when_empty() {
    let board = [[0u8; 9]; 9];
    assert_eq!(next_item(&board, 0, 0), (0, 0));
    assert_eq!(next_item(&board, 4, 7), (4, 7));
}

#[test]
fn next_item_skips_filled_cells_and_wraps_rows() {
    let mut board = [[0u8; 9]; 9];
    board[0][7] = 3;
    board[0][8] = 4;
    board[1][0] = 5;
    assert_eq!(next_item(&board, 0, 7), (1, 1));
    assert_eq!(next_item(&board, 0, 6), (0, 6));
}

#[test]
fn next_item_returns_row_nine_when_nothing_is_empty() {
    let board = [[1u8; 9]; 9];
    assert_eq!(next_item(&board, 0, 0), (9, 0));
    assert_eq!(next_item(&board, 8, 8), (9, 0));
    assert_eq!(next_item(&board, 9, 0), (9, 0));
    let mut last = [[0u8; 9]; 9];
    last[8][8] = 2;
    assert_eq!(next_item(&last, 8, 8), (9, 0));
}

#[test]
fn new_tracker_records_nothing() {
    let t = Tracker::new();
    for u in 0..9 {
        assert!(t.rows[u].is_empty());
        assert!(t.cols[u].is_empty());
        assert!(t.boxes[u].is_empty());
    }
    assert_eq!(t.forbidden(3, 3).len(), 0);
}

#[test]
fn place_records_the_digit_in_three_sets() {
    let mut t = Tracker::new();
    t.place(4, 7, 2);
    assert!(t.rows[4].contains(2));
    assert!(t.cols[7].contains(2));
    assert!(t.boxes[5].contains(2));
    assert_eq!(t.rows[4].len(), 1);
    assert!(t.rows[3].is_empty());
    assert!(t.cols[4].is_empty());
    assert!(t.boxes[4].is_empty());
}

#[test]
fn unplace_undoes_place() {
    let mut t = Tracker::new();
    t.place(0, 0, 8);
    t.place(0, 1, 3);
    t.unplace(0, 0, 8);
    assert!(!t.rows[0].contains(8));
    assert!(t.rows[0].contains(3));
    assert!(t.cols[0].is_empty());
    assert!(t.cols[1].contains(3));
    assert!(t.boxes[0].contains(3));
    assert!(!t.boxes[0].contains(8));
}

#[test]
fn forbidden_is_the_union_of_row_column_and_box() {
    let mut t = Tracker::new();
    t.place(0, 5, 0);
    t.place(6, 1, 1);
    t.place(1, 2, 2);
    t.place(8, 8, 3);
    let f = t.forbidden(0, 1);
    assert!(f.contains(0));
    assert!(f.contains(1));
    assert!(f.contains(2));
    assert!(!f.contains(3));
    assert_eq!(f.len(), 3);
}

#[test]
fn from_board_records_every_given() {
    let mut board = [[0u8; 9]; 9];
    board[0][0] = 5;
    board[4][4] = 9;
    board[8][0] = 1;
    let t = Tracker::from_board(&board);
    assert!(t.rows[0].contains(4));
    assert!(t.cols[0].contains(4));
    assert!(t.cols[0].contains(0));
    assert!(t.boxes[0].contains(4));
    assert!(t.rows[4].contains(8));
    assert!(t.boxes[4].contains(8));
    assert!(t.boxes[6].contains(0));
    assert_eq!(t.cols[0].len(), 2);
    assert_eq!(t.rows[1].len(), 0);
    let f = t.forbidden(0, 4);
    assert_eq!(f.len(), 2);
    assert!(f.contains(4) && f.contains(8));
}
