//! The constraint tracker: for each row, column and box, the set of digits
//! that it already holds. A digit `d` is recorded by its index `d - 1`.

use vstd::prelude::*;
use bit_set::BitSet;
use crate::bits::{bits_insert, bits_remove, bits_union, bits_with_capacity, members};
use crate::grid::{flat, get_cell, is_grid, unit_of};
use crate::theory::{lemma_digits_after_write, lemma_digits_of_blank, unit_digits};

verus! {

/// Nine digit sets for the rows, nine for the columns and nine for the boxes.
pub struct Tracker {
    pub rows: [BitSet; 9],
    pub cols: [BitSet; 9],
    pub boxes: [BitSet; 9],
}

/// The first `n` cells of `g`, followed by empty cells.
pub open spec fn seeded(g: Seq<u8>, n: int) -> Seq<u8> {
    Seq::new(81, |p: int| if p < n { g[p] } else { 0u8 })
}

fn fresh_sets() -> (sets: [BitSet; 9])
    ensures
        forall|u: int| 0 <= u < 9 ==> members(#[trigger] sets@[u]) == Set::<int>::empty(),
{
    [
        bits_with_capacity(9),
        bits_with_capacity(9),
        bits_with_capacity(9),
        bits_with_capacity(9),
        bits_with_capacity(9),
        bits_with_capacity(9),
        bits_with_capacity(9),
        bits_with_capacity(9),
        bits_with_capacity(9),
    ]
}

impl Tracker {
    /// The digit indices recorded for unit `u` of a family: the rows for
    /// `kind` 0, the columns for `kind` 1, the boxes otherwise.
    pub open spec fn used(&self, kind: int, u: int) -> Set<int> {
        if kind == 0 {
            members(self.rows@[u])
        } else if kind == 1 {
            members(self.cols@[u])
        } else {
            members(self.boxes@[u])
        }
    }

    /// The tracker records exactly the digits that each unit of `g` holds.
    pub open spec fn synced(&self, g: Seq<u8>) -> bool {
        forall|kind: int, u: int|
            0 <= kind < 3 && 0 <= u < 9 ==> #[trigger] self.used(kind, u) == unit_digits(
                g,
                kind,
                u,
            )
    }

    /// The digit indices that may not go to the cell at `p`.
    pub open spec fn forbidden_at(&self, p: int) -> Set<int> {
        self.used(0, unit_of(0, p)).union(self.used(1, unit_of(1, p))).union(
            self.used(2, unit_of(2, p)),
        )
    }

    /// A tracker with nothing recorded.
    pub fn new() -> (t: Tracker)
        ensures
            forall|kind: int, u: int|
                0 <= kind < 3 && 0 <= u < 9 ==> #[trigger] t.used(kind, u) == Set::<int>::empty(),
    {
        Tracker { rows: fresh_sets(), cols: fresh_sets(), boxes: fresh_sets() }
    }

    /// The tracker of a board: every digit on it is recorded for its row,
    /// its column and its box.
    pub fn from_board(board: &[[u8; 9]; 9]) -> (t: Tracker)
        requires
            is_grid(flat(*board)),
        ensures
            t.synced(flat(*board)),
    {
        let mut t = Tracker::new();
        let ghost g = flat(*board);
        proof {
            assert forall|kind: int, u: int| 0 <= kind < 3 && 0 <= u < 9 implies #[trigger] t.used(
                kind,
                u,
            ) == unit_digits(seeded(g, 0), kind, u) by {
                lemma_digits_of_blank(seeded(g, 0), kind, u);
            }
        }
        let mut pos: usize = 0;
        while pos < 81
            invariant
                pos <= 81,
                g == flat(*board),
                is_grid(g),
                t.synced(seeded(g, pos as int)),
            decreases 81 - pos,
        {
            let row: usize = pos / 9;
            let col: usize = pos % 9;
            let digit = board[row][col];
            let ghost before = seeded(g, pos as int);
            let ghost was = t;
            assert(digit == g[pos as int]);
            if digit != 0 {
                t.place(row, col, (digit - 1) as usize);
                proof {
                    assert(seeded(g, pos + 1) =~= before.update(pos as int, digit));
                    assert forall|kind: int, u: int|
                        0 <= kind < 3 && 0 <= u < 9 implies #[trigger] t.used(kind, u)
                        == unit_digits(seeded(g, pos + 1), kind, u) by {
                        lemma_digits_after_write(before, pos as int, digit, kind, u);
                        assert(was.used(kind, u) == unit_digits(before, kind, u));
                    }
                }
            } else {
                assert(seeded(g, pos + 1) =~= before);
            }
            pos += 1;
        }
        assert(seeded(g, 81) =~= g);
        t
    }

    /// The digit indices already held by the row, the column or the box of
    /// the cell at (`row`, `col`).
    pub fn forbidden(&self, row: usize, col: usize) -> (f: BitSet)
        requires
            row < 9,
            col < 9,
        ensures
            members(f) == self.forbidden_at(row * 9 + col),
    {
        let cell = get_cell(row, col);
        let first = bits_union(&self.rows[row], &self.cols[col]);
        bits_union(&first, &self.boxes[cell])
    }

    /// Records digit index `index` for the row, the column and the box of
    /// the cell at (`row`, `col`).
    pub fn place(&mut self, row: usize, col: usize, index: usize)
        requires
            row < 9,
            col < 9,
            index < 9,
        ensures
            forall|kind: int, u: int|
                0 <= kind < 3 && 0 <= u < 9 ==> #[trigger] final(self).used(kind, u) == if u
                    == unit_of(kind, row * 9 + col) {
                    old(self).used(kind, u).insert(index as int)
                } else {
                    old(self).used(kind, u)
                },
    {
        let cell = get_cell(row, col);
        bits_insert(&mut self.rows[row], index);
        bits_insert(&mut self.cols[col], index);
        bits_insert(&mut self.boxes[cell], index);
    }

    /// Takes digit index `index` out of the sets of the row, the column and
    /// the box of the cell at (`row`, `col`).
    pub fn unplace(&mut self, row: usize, col: usize, index: usize)
        requires
            row < 9,
            col < 9,
        ensures
            forall|kind: int, u: int|
                0 <= kind < 3 && 0 <= u < 9 ==> #[trigger] final(self).used(kind, u) == if u
                    == unit_of(kind, row * 9 + col) {
                    old(self).used(kind, u).remove(index as int)
                } else {
                    old(self).used(kind, u)
                },
    {
        let cell = get_cell(row, col);
        bits_remove(&mut self.rows[row], index);
        bits_remove(&mut self.cols[col], index);
        bits_remove(&mut self.boxes[cell], index);
    }
}

} // verus!
