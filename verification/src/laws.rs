//! What holds of every answer of the solver.

use vstd::prelude::*;
use crate::grid::{
    completes, first_empty_from, fits, is_answer, is_grid, lex_le, peers, unit_of,
};
use crate::theory::{lemma_full_grid, lemma_nine_indices};

verus! {

/// Every cell holds a digit that none of its peers holds.
pub open spec fn valid(s: Seq<u8>) -> bool {
    s.len() == 81 && forall|p: int| 0 <= p < 81 ==> #[trigger] fits(s, p)
}

/// No two peers among the filled cells of `g` hold the same digit.
pub open spec fn consistent(g: Seq<u8>) -> bool {
    forall|p: int, q: int|
        0 <= p < 81 && 0 <= q < 81 && peers(p, q) && g[p] != 0 ==> #[trigger] g[p] != #[trigger] g[q]
}

/// No cell of `g` is empty.
pub open spec fn full(g: Seq<u8>) -> bool {
    g.len() == 81 && forall|p: int| 0 <= p < 81 ==> #[trigger] g[p] != 0
}

/// The answer keeps every filled cell of the puzzle.
pub proof fn lemma_answer_keeps_givens(g: Seq<u8>, out: Seq<u8>)
    requires
        g.len() == 81,
        is_answer(g, out),
    ensures
        out.len() == 81,
        forall|p: int| 0 <= p < 81 && g[p] != 0 ==> #[trigger] out[p] == g[p],
{
}

/// A puzzle has one answer only: two grids that both are answers for `g`
/// are the same grid.
pub proof fn lemma_answer_unique(g: Seq<u8>, a: Seq<u8>, b: Seq<u8>)
    requires
        is_answer(g, a),
        is_answer(g, b),
    ensures
        a == b,
{
    if a != b {
        assert(lex_le(a, b));
        assert(lex_le(b, a));
        let k1 = choose|k: int|
            0 <= k < 81 && #[trigger] a[k] < b[k] && forall|j: int|
                0 <= j < k ==> #[trigger] a[j] == b[j];
        let k2 = choose|k: int|
            0 <= k < 81 && #[trigger] b[k] < a[k] && forall|j: int|
                0 <= j < k ==> #[trigger] b[j] == a[j];
        if k1 < k2 {
            assert(b[k1] == a[k1]);
        } else if k2 < k1 {
            assert(a[k2] == b[k2]);
        }
    }
}

/// The answer for a grid without empty cells is that grid.
pub proof fn lemma_full_grid_is_fixed(g: Seq<u8>, out: Seq<u8>)
    requires
        full(g),
        is_answer(g, out),
    ensures
        out == g,
{
    assert(first_empty_from(g, 0, 81));
    lemma_full_grid(g);
}

/// A filling of a consistent puzzle is valid.
pub proof fn lemma_filling_is_valid(g: Seq<u8>, s: Seq<u8>)
    requires
        is_grid(g),
        consistent(g),
        completes(s, g),
    ensures
        valid(s),
{
    assert forall|p: int| 0 <= p < 81 implies #[trigger] fits(s, p) by {
        if g[p] != 0 {
            assert(s[p] == g[p]);
            assert forall|q: int| 0 <= q < 81 && peers(p, q) implies #[trigger] s[q] != s[p] by {
                if g[q] != 0 {
                    assert(s[q] == g[q]);
                } else {
                    assert(fits(s, q));
                    assert(peers(q, p));
                }
            }
        }
    }
}


/// Position `k` of unit `u` of a family, counted in row-major order.
pub open spec fn cell_at(kind: int, u: int, k: int) -> int {
    if kind == 0 {
        u * 9 + k
    } else if kind == 1 {
        k * 9 + u
    } else {
        ((u / 3) * 3 + k / 3) * 9 + (u % 3) * 3 + k % 3
    }
}

/// Exactly one cell of unit `u` of a family holds digit `d`.
pub open spec fn holds_once(s: Seq<u8>, kind: int, u: int, d: int) -> bool {
    exists|p: int|
        0 <= p < 81 && unit_of(kind, p) == u && (#[trigger] s[p]) == d && forall|q: int|
            0 <= q < 81 && unit_of(kind, q) == u && (#[trigger] s[q]) == d ==> q == p
}

/// The indices of the digits among the first `n` of `v`.
pub open spec fn seen(v: Seq<u8>, n: int) -> Set<int> {
    Set::new(|i: int| exists|k: int| 0 <= k < n && (#[trigger] v[k]) == i + 1)
}

/// Each unit has nine positions, and `cell_at` names them without
/// repetition.
pub proof fn lemma_cell_at(kind: int, u: int, j: int, k: int)
    requires
        0 <= kind < 3,
        0 <= u < 9,
        0 <= j < 9,
        0 <= k < 9,
    ensures
        0 <= cell_at(kind, u, k) < 81,
        unit_of(kind, cell_at(kind, u, k)) == u,
        j != k ==> cell_at(kind, u, j) != cell_at(kind, u, k),
{
    if kind == 2 {
        lemma_box_cell(u, j);
        lemma_box_cell(u, k);
    }
}

/// Position `k` of box `u` lies in row `(u / 3) * 3 + k / 3` and column
/// `(u % 3) * 3 + k % 3`.
pub proof fn lemma_box_cell(u: int, k: int)
    requires
        0 <= u < 9,
        0 <= k < 9,
    ensures
        cell_at(2, u, k) / 9 == (u / 3) * 3 + k / 3,
        cell_at(2, u, k) % 9 == (u % 3) * 3 + k % 3,
        unit_of(2, cell_at(2, u, k)) == u,
{
    let row = (u / 3) * 3 + k / 3;
    let col = (u % 3) * 3 + k % 3;
    assert(0 <= col < 9);
    assert(cell_at(2, u, k) == row * 9 + col);
    assert((row * 9 + col) / 9 == row);
    assert((row * 9 + col) % 9 == col);
    assert(row / 3 == u / 3);
    assert(col / 3 == u % 3);
}

/// The first `n` of a sequence of distinct digits are `n` digits.
pub proof fn lemma_seen_len(v: Seq<u8>, n: int)
    requires
        0 <= n <= v.len(),
        forall|j: int, k: int| 0 <= j < k < v.len() ==> #[trigger] v[j] != #[trigger] v[k],
    ensures
        seen(v, n).finite(),
        seen(v, n).len() == n,
    decreases n,
{
    if n == 0 {
        assert(seen(v, 0) =~= Set::<int>::empty());
    } else {
        lemma_seen_len(v, n - 1);
        let last = v[n - 1] - 1;
        assert(!seen(v, n - 1).contains(last)) by {
            if seen(v, n - 1).contains(last) {
                let k = choose|k: int| 0 <= k < n - 1 && (#[trigger] v[k]) == last + 1;
                assert(v[k] != v[n - 1]);
            }
        }
        assert(seen(v, n) =~= seen(v, n - 1).insert(last)) by {
            assert forall|i: int| seen(v, n).contains(i) implies seen(v, n - 1).insert(
                last,
            ).contains(i) by {
                let k = choose|k: int| 0 <= k < n && (#[trigger] v[k]) == i + 1;
                if k < n - 1 {
                    assert(seen(v, n - 1).contains(i));
                }
            }
            assert forall|i: int| seen(v, n - 1).insert(last).contains(i) implies seen(
                v,
                n,
            ).contains(i) by {
                if i == last {
                    assert(v[n - 1] == i + 1);
                } else {
                    let k = choose|k: int| 0 <= k < n - 1 && (#[trigger] v[k]) == i + 1;
                    assert(v[k] == i + 1);
                }
            }
        }
    }
}

/// In a valid grid every row, every column and every box holds each digit
/// exactly once.
pub proof fn lemma_each_digit_once(s: Seq<u8>, kind: int, u: int, d: int)
    requires
        valid(s),
        0 <= kind < 3,
        0 <= u < 9,
        1 <= d <= 9,
    ensures
        holds_once(s, kind, u, d),
{
    let v = Seq::new(9, |k: int| s[cell_at(kind, u, k)]);
    assert forall|j: int, k: int| 0 <= j < k < v.len() implies #[trigger] v[j] != #[trigger] v[k] by {
        lemma_cell_at(kind, u, j, k);
        lemma_cell_at(kind, u, k, j);
        let p = cell_at(kind, u, j);
        let q = cell_at(kind, u, k);
        assert(peers(p, q));
        assert(fits(s, p));
    }
    lemma_seen_len(v, 9);
    assert forall|i: int| seen(v, 9).contains(i) implies 0 <= i < 9 by {
        let k = choose|k: int| 0 <= k < 9 && (#[trigger] v[k]) == i + 1;
        lemma_cell_at(kind, u, k, k);
        assert(fits(s, cell_at(kind, u, k)));
    }
    lemma_nine_indices(seen(v, 9));
    assert(seen(v, 9).contains(d - 1));
    let k = choose|k: int| 0 <= k < 9 && (#[trigger] v[k]) == (d - 1) + 1;
    lemma_cell_at(kind, u, k, k);
    let p = cell_at(kind, u, k);
    assert(s[p] == d);
    assert forall|q: int| 0 <= q < 81 && unit_of(kind, q) == u && (#[trigger] s[q]) == d implies q
        == p by {
        if q != p {
            assert(peers(p, q));
            assert(fits(s, p));
        }
    }
}

/// Where the puzzle is consistent and the answer has no empty cell, the
/// answer is valid: every row, every column and every box of it holds each
/// digit exactly once.
pub proof fn lemma_full_answer_is_valid(g: Seq<u8>, out: Seq<u8>)
    requires
        is_grid(g),
        consistent(g),
        is_answer(g, out),
        full(out),
    ensures
        valid(out),
        forall|kind: int, u: int, d: int|
            0 <= kind < 3 && 0 <= u < 9 && 1 <= d <= 9 ==> #[trigger] holds_once(out, kind, u, d),
{
    if completes(out, g) {
        lemma_filling_is_valid(g, out);
    } else {
        assert(out == g);
        assert forall|p: int| 0 <= p < 81 implies #[trigger] fits(out, p) by {
            assert(g[p] != 0);
            assert(g[p] <= 9);
        }
    }
    assert forall|kind: int, u: int, d: int|
        0 <= kind < 3 && 0 <= u < 9 && 1 <= d <= 9 implies #[trigger] holds_once(
        out,
        kind,
        u,
        d,
    ) by {
        lemma_each_digit_once(out, kind, u, d);
    }
}

} // verus!
