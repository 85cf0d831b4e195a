use sudoku_solver::search::solve;
use sudoku_solver::solve_puzzle;
use sudoku_solver::grid::{create_board, flatten_board, next_item};
use sudoku_solver::tracker::Tracker;

fn cells(text: &str) -> Vec<u8> {
    text.bytes().map(|b| b - b'0').collect()
}

fn unit_is_complete(grid: &[u8], positions: &[usize]) -> bool {
    let mut count = [0usize; 10];
    for &p in positions {
        if grid[p] < 1 || grid[p] > 9 {
            return false;
        }
        count[grid[p] as usize] += 1;
    }
    (1..10).all(|d| count[d] == 1)
}

fn is_valid(grid: &[u8]) -> bool {
    if grid.len() != 81 {
        return false;
    }
    for u in 0..9 {
        let row: Vec<usize> = (0..9).map(|k| u * 9 + k).collect();
        let col: Vec<usize> = (0..9).map(|k| k * 9 + u).collect();
        let bx: Vec<usize> = (0..9)
            .map(|k| ((u / 3) * 3 + k / 3) * 9 + (u % 3) * 3 + k % 3)
            .collect();
        if !unit_is_complete(grid, &row) || !unit_is_complete(grid, &col) || !unit_is_complete(grid, &bx) {
            return false;
        }
    }
    true
}

fn keeps_givens(input: &[u8], output: &[u8]) -> bool {
    (0..81).all(|p| input[p] == 0 || input[p] == output[p])
}

const CLASSIC: &str =
    "530070000600195000098000060800060003400803001700020006060000280000419005000080079";
const CLASSIC_SOLVED: &str =
    "534678912672195348198342567859761423426853791713924856961537284287419635345286179";

#[test]
fn empty_grid_gets_the_least_solution() {
    let input = vec![0u8; 81];
    let output = solve_puzzle(&input);
    assert!(is_valid(&output));
    assert_eq!(
        output,
        cells("123456789456789123789123456214365897365897214897214365531642978642978531978531642")
    );
}

#[test]
fn single_clue_is_kept_and_grid_completed() {
    let mut input = vec![0u8; 81];
    input[40] = 7;
    let output = solve_puzzle(&input);
    assert!(is_valid(&output));
    assert_eq!(output[40], 7);
    assert_eq!(
        output,
        cells("123456789456789123789123456214365897365978214897214365531642978642897531978531642")
    );
}

#[test]
fn classic_puzzle_is_solved() {
    let input = cells(CLASSIC);
    let output = solve_puzzle(&input);
    assert_eq!(output, cells(CLASSIC_SOLVED));
    assert!(is_valid(&output));
    assert!(keeps_givens(&input, &output));
}

#[test]
fn seventeen_clue_puzzle_is_solved() {
    let input =
        cells("000050740800000030100090000003400020000806000050100000000000001020000000004000000");
    assert_eq!(input.iter().filter(|&&d| d != 0).count(), 17);
    let output = solve_puzzle(&input);
    assert_eq!(
        output,
        cells("239651748865247139147398562913475826472836915658129374396784251521963487784512693")
    );
    assert!(is_valid(&output));
    assert!(keeps_givens(&input, &output));
}

#[test]
fn published_seventeen_clue_puzzle_is_solved() {
    let input =
        cells("000000010400000000020000000000050407008000300001090000300400200050100000000806000");
    assert_eq!(input.iter().filter(|&&d| d != 0).count(), 17);
    let output = solve_puzzle(&input);
    assert_eq!(
        output,
        cells("693784512487512936125963874932651487568247391741398625319475268856129743274836159")
    );
}

#[test]
fn repeated_calls_give_the_same_output() {
    let input = cells(CLASSIC);
    let first = solve_puzzle(&input);
    let second = solve_puzzle(&input);
    assert_eq!(first, second);
    let blank = vec![0u8; 81];
    assert_eq!(solve_puzzle(&blank), solve_puzzle(&blank));
}

#[test]
fn solved_grid_comes_back_unchanged() {
    let input = cells(CLASSIC_SOLVED);
    let output = solve_puzzle(&input);
    assert_eq!(output, input);
}

#[test]
fn givens_are_never_overwritten() {
    let mut input = vec![0u8; 81];
    input[0] = 9;
    input[13] = 1;
    input[80] = 5;
    let output = solve_puzzle(&input);
    assert!(is_valid(&output));
    assert_eq!(output[0], 9);
    assert_eq!(output[13], 1);
    assert_eq!(output[80], 5);
}

#[test]
fn duplicate_in_a_row_gives_no_valid_grid() {
    let mut input = cells(CLASSIC_SOLVED);
    input[1] = 5;
    for p in 72..81 {
        input[p] = 0;
    }
    let output = solve_puzzle(&input);
    assert_eq!(output[0], 5);
    assert_eq!(output[1], 5);
    assert!(!is_valid(&output));
    assert!(keeps_givens(&input, &output));
    assert_eq!(&output[72..], &[3, 4, 5, 2, 8, 6, 1, 7, 9]);
    assert_eq!(solve_puzzle(&input), output);
}

#[test]
fn cell_with_every_digit_forbidden_leaves_the_grid_as_given() {
    let input =
        cells("123456780000000009000000000000000000000000000000000000000000000000000000000000000");
    let output = solve_puzzle(&input);
    assert_eq!(output, input);
}

#[test]
fn exhausted_search_undoes_its_placements() {
    let input =
        cells("123456700000000000000000000000000080000000000000000000000000008000000000000000000");
    let output = solve_puzzle(&input);
    assert_eq!(output, input);
}

#[test]
fn solve_reports_success_and_fills_the_board() {
    let input = cells(CLASSIC);
    let mut fixed = [0u8; 81];
    fixed.copy_from_slice(&input);
    let mut board = create_board(&fixed);
    let mut tracker = Tracker::from_board(&board);
    let (row, col) = next_item(&board, 0, 0);
    assert_eq!((row, col), (0, 2));
    assert!(solve(&mut board, row, col, &mut tracker));
    assert_eq!(flatten_board(&board).to_vec(), cells(CLASSIC_SOLVED));
    for u in 0..9 {
        assert_eq!(tracker.rows[u].len(), 9);
        assert_eq!(tracker.cols[u].len(), 9);
        assert_eq!(tracker.boxes[u].len(), 9);
    }
}

#[test]
fn solve_reports_failure_and_restores_board_and_tracker() {
    let input =
        cells("123456700000000000000000000000000080000000000000000000000000008000000000000000000");
    let mut fixed = [0u8; 81];
    fixed.copy_from_slice(&input);
    let mut board = create_board(&fixed);
    let mut tracker = Tracker::from_board(&board);
    let (row, col) = next_item(&board, 0, 0);
    assert_eq!((row, col), (0, 7));
    assert!(!solve(&mut board, row, col, &mut tracker));
    assert_eq!(flatten_board(&board).to_vec(), input);
    assert_eq!(tracker.rows[0].len(), 7);
    assert!(!tracker.rows[0].contains(8));
    assert_eq!(tracker.cols[7].len(), 1);
    assert_eq!(tracker.boxes[2].len(), 1);
    assert!(tracker.boxes[2].contains(6));
}

#[test]
fn solve_on_a_full_board_succeeds_at_once() {
    let input = cells(CLASSIC_SOLVED);
    let mut fixed = [0u8; 81];
    fixed.copy_from_slice(&input);
    let mut board = create_board(&fixed);
    let mut tracker = Tracker::from_board(&board);
    let (row, col) = next_item(&board, 0, 0);
    assert_eq!((row, col), (9, 0));
    assert!(solve(&mut board, row, col, &mut tracker));
    assert_eq!(flatten_board(&board).to_vec(), input);
}
