//! The depth-first search and the entry point of the library.

use vstd::prelude::*;
use crate::bits::{bits_contains, bits_len, members};
use crate::grid::{
    completes, create_board, first_empty_from, flat, flatten_board, is_answer, is_grid, next_item,
    solvable, unit_of,
};
use crate::theory::{
    lemma_digits_after_write, lemma_full_grid, lemma_nine_indices, lemma_recorded_is_blocked,
    lemma_step_fails, lemma_step_succeeds, lemma_unrecorded_is_free, unit_digits,
};
use crate::laws::lemma_answer_keeps_givens;
use crate::tracker::Tracker;

verus! {

/// Fills the empty cells of the board from (`row`, `col`) on, which is its
/// first empty cell, or row 9 where it has none. Digits are tried in
/// ascending order. Returns whether the board could be filled; where it
/// could not, the board is as it was.
pub fn solve(board: &mut [[u8; 9]; 9], row: usize, col: usize, tracker: &mut Tracker) -> (solved:
    bool)
    requires
        is_grid(flat(*old(board))),
        old(tracker).synced(flat(*old(board))),
        col < 9,
        first_empty_from(flat(*old(board)), 0, row * 9 + col),
    ensures
        solved == solvable(flat(*old(board))),
        is_answer(flat(*old(board)), flat(*final(board))),
        final(tracker).synced(flat(*final(board))),
    decreases 81 - (row * 9 + col),
{
    let ghost g = flat(*board);
    let ghost pos = row * 9 + col;
    if row == 9 {
        proof {
            lemma_full_grid(g);
        }
        return true;
    }
    let forbidden = tracker.forbidden(row, col);
    proof {
        assert forall|i: int, s: Seq<u8>|
            #![trigger members(forbidden).contains(i), s[pos]]
            members(forbidden).contains(i) && completes(s, g) implies s[pos] != i + 1 by {
            let kind: int = if tracker.used(0, unit_of(0, pos)).contains(i) {
                0
            } else if tracker.used(1, unit_of(1, pos)).contains(i) {
                1
            } else {
                2
            };
            assert(tracker.used(kind, unit_of(kind, pos)) == unit_digits(
                g,
                kind,
                unit_of(kind, pos),
            ));
            lemma_recorded_is_blocked(g, pos, i, kind, s);
        }
    }
    if bits_len(&forbidden) == 9 {
        proof {
            assert forall|i: int| members(forbidden).contains(i) implies 0 <= i < 9 by {
                assert(tracker.used(0, unit_of(0, pos)) == unit_digits(g, 0, unit_of(0, pos)));
                assert(tracker.used(1, unit_of(1, pos)) == unit_digits(g, 1, unit_of(1, pos)));
                assert(tracker.used(2, unit_of(2, pos)) == unit_digits(g, 2, unit_of(2, pos)));
            }
            lemma_nine_indices(members(forbidden));
            assert forall|s: Seq<u8>| !completes(s, g) by {
                if completes(s, g) {
                    assert(crate::grid::fits(s, pos));
                    assert(members(forbidden).contains(s[pos] - 1));
                }
            }
        }
        return false;
    }
    let mut i: usize = 0;
    while i < 9
        invariant
            i <= 9,
            row < 9,
            col < 9,
            pos == row * 9 + col,
            is_grid(g),
            first_empty_from(g, 0, pos),
            flat(*board) == g,
            tracker.synced(g),
            members(forbidden) == tracker.forbidden_at(pos),
            forall|s: Seq<u8>| completes(s, g) ==> #[trigger] s[pos] > i,
            forall|k: int, s: Seq<u8>|
                #![trigger members(forbidden).contains(k), s[pos]]
                members(forbidden).contains(k) && completes(s, g) ==> s[pos] != k + 1,
            g == flat(*old(board)),
        decreases 9 - i,
    {
        let digit: u8 = (i as u8) + 1;
        if !bits_contains(&forbidden, i) {
            let ghost was = *tracker;
            let ghost h = g.update(pos, digit);
            board[row][col] = digit;
            tracker.place(row, col, i);
            proof {
                assert(flat(*board) =~= h);
                assert forall|kind: int, u: int|
                    0 <= kind < 3 && 0 <= u < 9 implies #[trigger] tracker.used(kind, u)
                    == unit_digits(h, kind, u) by {
                    lemma_digits_after_write(g, pos, digit, kind, u);
                    assert(was.used(kind, u) == unit_digits(g, kind, u));
                }
                assert forall|kind: int| 0 <= kind < 3 implies !(#[trigger] unit_digits(
                    g,
                    kind,
                    unit_of(kind, pos),
                )).contains(i as int) by {
                    assert(was.used(kind, unit_of(kind, pos)) == unit_digits(
                        g,
                        kind,
                        unit_of(kind, pos),
                    ));
                }
                lemma_unrecorded_is_free(g, pos, i as int);
            }
            let (new_row, new_col) = next_item(board, row, col);
            if new_row == 9 {
                proof {
                    lemma_full_grid(h);
                    lemma_step_succeeds(g, pos, digit, h);
                }
                return true;
            }
            if solve(board, new_row, new_col, tracker) {
                proof {
                    lemma_step_succeeds(g, pos, digit, flat(*board));
                }
                return true;
            }
            assert(flat(*board) == h);
            tracker.unplace(row, col, i);
            board[row][col] = 0;
            proof {
                assert(flat(*board) =~= h.update(pos, 0u8));
                assert(h.update(pos, 0u8) =~= g);
                lemma_step_fails(g, pos, digit);
                assert forall|kind: int, u: int|
                    0 <= kind < 3 && 0 <= u < 9 implies #[trigger] tracker.used(kind, u)
                    == unit_digits(g, kind, u) by {
                    lemma_digits_after_write(g, pos, digit, kind, u);
                    assert(was.used(kind, u) == unit_digits(g, kind, u));
                    if u == unit_of(kind, pos) {
                        assert(!unit_digits(g, kind, unit_of(kind, pos)).contains(i as int));
                        assert(was.used(kind, u).insert(i as int).remove(i as int) =~= was.used(
                            kind,
                            u,
                        ));
                    }
                }
            }
        }
        i += 1;
    }
    board[row][col] = 0;
    proof {
        assert(flat(*board) =~= g);
        assert forall|s: Seq<u8>| !completes(s, g) by {
            if completes(s, g) {
                assert(s[pos] > 9);
                assert(crate::grid::fits(s, pos));
            }
        }
    }
    false
}

/// Solves a puzzle of 81 cells in row-major order, 0 for an empty cell.
///
/// Returns the least filling of the puzzle in lexicographic order where it
/// has one, and the puzzle as it was given where it has none.
pub fn solve_puzzle(input_board: &[u8]) -> (output: Vec<u8>)
    requires
        is_grid(input_board@),
    ensures
        output@.len() == 81,
        is_answer(input_board@, output@),
        forall|p: int| 0 <= p < 81 && input_board@[p] != 0 ==> output@[p] == input_board@[p],
{
    let mut fixed_board: [u8; 81] = [0u8; 81];
    let mut i: usize = 0;
    while i < 81
        invariant
            i <= 81,
            input_board@.len() == 81,
            forall|p: int| 0 <= p < i ==> #[trigger] fixed_board@[p] == input_board@[p],
        decreases 81 - i,
    {
        fixed_board[i] = input_board[i];
        i += 1;
    }
    assert(fixed_board@ =~= input_board@);
    let mut board = create_board(&fixed_board);
    let mut tracker = Tracker::from_board(&board);
    let (row, col) = next_item(&board, 0, 0);
    solve(&mut board, row, col, &mut tracker);
    let flat_board = flatten_board(&board);
    let mut output: Vec<u8> = Vec::new();
    let mut k: usize = 0;
    while k < 81
        invariant
            k <= 81,
            output@.len() == k,
            forall|p: int| 0 <= p < k ==> #[trigger] output@[p] == flat_board@[p],
        decreases 81 - k,
    {
        output.push(flat_board[k]);
        k += 1;
    }
    proof {
        assert(output@ =~= flat_board@);
        lemma_answer_keeps_givens(input_board@, output@);
    }
    output
}

} // verus!
