//! The grid: its mathematical model and the arithmetic on positions.
//!
//! A grid is modelled as a sequence of 81 cells in row-major order. Position
//! `p` lies in row `p / 9` and column `p % 9`.

use vstd::prelude::*;

verus! {

/// The box that holds the cell at (`row`, `col`).
pub open spec fn box_of(row: int, col: int) -> int {
    (row / 3) * 3 + col / 3
}

/// The unit of one family that holds position `p`: its row for `kind` 0,
/// its column for `kind` 1, its box otherwise.
pub open spec fn unit_of(kind: int, p: int) -> int {
    if kind == 0 {
        p / 9
    } else if kind == 1 {
        p % 9
    } else {
        box_of(p / 9, p % 9)
    }
}

/// Two distinct positions that share a row, a column or a box.
pub open spec fn peers(p: int, q: int) -> bool {
    p != q && (unit_of(0, p) == unit_of(0, q) || unit_of(1, p) == unit_of(1, q) || unit_of(2, p)
        == unit_of(2, q))
}

/// A sequence of 81 cells, each empty (0) or a digit.
pub open spec fn is_grid(g: Seq<u8>) -> bool {
    g.len() == 81 && forall|p: int| 0 <= p < 81 ==> #[trigger] g[p] <= 9
}

/// The cell at `p` holds a digit that none of its peers holds.
pub open spec fn fits(s: Seq<u8>, p: int) -> bool {
    1 <= s[p] <= 9 && forall|q: int| 0 <= q < 81 && peers(p, q) ==> #[trigger] s[q] != s[p]
}

/// `s` fills the empty cells of `g`: it keeps every filled cell of `g`, and
/// each cell that was empty holds a digit that fits.
pub open spec fn completes(s: Seq<u8>, g: Seq<u8>) -> bool {
    s.len() == 81 && forall|p: int|
        #![trigger g[p]]
        #![trigger s[p]]
        0 <= p < 81 ==> if g[p] != 0 {
            s[p] == g[p]
        } else {
            fits(s, p)
        }
}

/// Some filling of the empty cells of `g` exists.
pub open spec fn solvable(g: Seq<u8>) -> bool {
    exists|s: Seq<u8>| completes(s, g)
}

/// `a` comes no later than `b` in lexicographic order.
pub open spec fn lex_le(a: Seq<u8>, b: Seq<u8>) -> bool {
    a == b || exists|k: int|
        0 <= k < 81 && #[trigger] a[k] < b[k] && forall|j: int| 0 <= j < k ==> #[trigger] a[j] == b[j]
}

/// What the solver answers for `g`: the least filling where one exists, and
/// `g` itself where none does.
pub open spec fn is_answer(g: Seq<u8>, out: Seq<u8>) -> bool {
    if solvable(g) {
        completes(out, g) && forall|s: Seq<u8>| completes(s, g) ==> lex_le(out, s)
    } else {
        out == g
    }
}

/// `p` is the first empty position of `g` at or after `start`, or 81 where
/// no cell from `start` on is empty.
pub open spec fn first_empty_from(g: Seq<u8>, start: int, p: int) -> bool {
    &&& start <= p <= 81
    &&& p < 81 ==> g[p] == 0
    &&& forall|q: int| start <= q < p ==> #[trigger] g[q] != 0
}

/// The row-major sequence of the cells of a 9×9 board.
pub open spec fn flat(b: [[u8; 9]; 9]) -> Seq<u8> {
    Seq::new(81, |p: int| b@[p / 9]@[p % 9])
}

/// Lays 81 cells out as nine rows of nine.
pub fn create_board(board: &[u8; 81]) -> (board_2d: [[u8; 9]; 9])
    ensures
        flat(board_2d) == board@,
{
    let mut board_2d: [[u8; 9]; 9] = [[0u8; 9]; 9];
    let mut i: usize = 0;
    while i < 81
        invariant
            i <= 81,
            forall|p: int| 0 <= p < i ==> board_2d@[p / 9]@[p % 9] == #[trigger] board@[p],
        decreases 81 - i,
    {
        let row: usize = i / 9;
        let col: usize = i % 9;
        board_2d[row][col] = board[i];
        i += 1;
    }
    assert(flat(board_2d) =~= board@);
    board_2d
}

/// Writes the rows of a board one after the other.
pub fn flatten_board(board: &[[u8; 9]; 9]) -> (flat_board: [u8; 81])
    ensures
        flat_board@ == flat(*board),
{
    let mut flat_board: [u8; 81] = [0u8; 81];
    let mut i: usize = 0;
    while i < 81
        invariant
            i <= 81,
            forall|p: int| 0 <= p < i ==> #[trigger] flat_board@[p] == board@[p / 9]@[p % 9],
        decreases 81 - i,
    {
        let row: usize = i / 9;
        let col: usize = i % 9;
        flat_board[i] = board[row][col];
        i += 1;
    }
    assert(flat_board@ =~= flat(*board));
    flat_board
}

/// The index of the box that holds the cell at (`row`, `col`).
pub fn get_cell(row: usize, col: usize) -> (cell: usize)
    requires
        row < 9,
        col < 9,
    ensures
        cell == box_of(row as int, col as int),
        cell < 9,
{
    (row / 3) * 3 + col / 3
}

/// Scans forward from (`row`, `col`), that cell included, for the first empty
/// cell, and returns row 9, column 0 where none is left.
pub fn next_item(board: &[[u8; 9]; 9], row: usize, col: usize) -> (next: (usize, usize))
    requires
        row * 9 + col <= 81,
    ensures
        next.1 < 9,
        first_empty_from(flat(*board), row * 9 + col, next.0 * 9 + next.1),
{
    let mut pos: usize = row * 9 + col;
    while pos < 81 && board[pos / 9][pos % 9] != 0
        invariant
            row * 9 + col <= pos <= 81,
            forall|q: int| row * 9 + col <= q < pos ==> #[trigger] flat(*board)[q] != 0,
        decreases 81 - pos,
    {
        pos += 1;
    }
    (pos / 9, pos % 9)
}

} // verus!
