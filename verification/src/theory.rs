//! Facts about grids and their fillings on which the search rests.

use vstd::prelude::*;
use vstd::set_lib::{lemma_int_range, lemma_len_subset, lemma_subset_equality, set_int_range};
use crate::grid::{
    completes, first_empty_from, fits, is_answer, lex_le, peers, solvable, unit_of,
};

verus! {

/// The indices of the digits that unit `u` of a family holds in `g`.
pub open spec fn unit_digits(g: Seq<u8>, kind: int, u: int) -> Set<int> {
    Set::new(
        |i: int|
            0 <= i < 9 && exists|p: int|
                0 <= p < 81 && unit_of(kind, p) == u && (#[trigger] g[p]) == i + 1,
    )
}

/// No peer of the cell at `p` holds digit `d` in `g`.
pub open spec fn free_at(g: Seq<u8>, p: int, d: int) -> bool {
    forall|q: int| 0 <= q < 81 && peers(p, q) ==> #[trigger] g[q] != d
}

/// A unit of a grid without digits holds no digit.
pub proof fn lemma_digits_of_blank(g: Seq<u8>, kind: int, u: int)
    requires
        g.len() == 81,
        forall|p: int| 0 <= p < 81 ==> #[trigger] g[p] == 0,
    ensures
        unit_digits(g, kind, u) == Set::<int>::empty(),
{
    assert(unit_digits(g, kind, u) =~= Set::<int>::empty());
}

/// Writing digit `d` into an empty cell adds its index to the digits of the
/// units that hold the cell, and changes no other unit.
pub proof fn lemma_digits_after_write(g: Seq<u8>, pos: int, d: u8, kind: int, u: int)
    requires
        g.len() == 81,
        0 <= pos < 81,
        g[pos] == 0,
        1 <= d <= 9,
    ensures
        unit_digits(g.update(pos, d), kind, u) == if u == unit_of(kind, pos) {
            unit_digits(g, kind, u).insert(d - 1)
        } else {
            unit_digits(g, kind, u)
        },
{
    let h = g.update(pos, d);
    let a = unit_digits(h, kind, u);
    let b = if u == unit_of(kind, pos) {
        unit_digits(g, kind, u).insert(d - 1)
    } else {
        unit_digits(g, kind, u)
    };
    assert forall|i: int| a.contains(i) implies b.contains(i) by {
        let p = choose|p: int| 0 <= p < 81 && unit_of(kind, p) == u && (#[trigger] h[p]) == i + 1;
        if p != pos {
            assert(g[p] == i + 1);
        }
    }
    assert forall|i: int| b.contains(i) implies a.contains(i) by {
        if u == unit_of(kind, pos) && i == d - 1 {
            assert(h[pos] == i + 1);
        } else {
            let p = choose|p: int|
                0 <= p < 81 && unit_of(kind, p) == u && (#[trigger] g[p]) == i + 1;
            assert(h[p] == i + 1);
        }
    }
    assert(a =~= b);
}

/// A digit whose index is recorded for no unit of the cell at `pos` is held
/// by no peer of that cell.
pub proof fn lemma_unrecorded_is_free(g: Seq<u8>, pos: int, i: int)
    requires
        g.len() == 81,
        0 <= pos < 81,
        0 <= i < 9,
        forall|kind: int|
            0 <= kind < 3 ==> !(#[trigger] unit_digits(g, kind, unit_of(kind, pos))).contains(i),
    ensures
        free_at(g, pos, i + 1),
{
    assert forall|q: int| 0 <= q < 81 && peers(pos, q) implies #[trigger] g[q] != i + 1 by {
        if g[q] == i + 1 {
            let kind: int = if unit_of(0, pos) == unit_of(0, q) {
                0
            } else if unit_of(1, pos) == unit_of(1, q) {
                1
            } else {
                2
            };
            assert(unit_digits(g, kind, unit_of(kind, pos)).contains(i));
        }
    }
}

/// A digit whose index is recorded for a unit of the empty cell at `pos` is
/// the digit of that cell in no filling of `g`.
pub proof fn lemma_recorded_is_blocked(g: Seq<u8>, pos: int, i: int, kind: int, s: Seq<u8>)
    requires
        g.len() == 81,
        0 <= pos < 81,
        g[pos] == 0,
        0 <= kind < 3,
        unit_digits(g, kind, unit_of(kind, pos)).contains(i),
        completes(s, g),
    ensures
        s[pos] != i + 1,
{
    let q = choose|q: int|
        0 <= q < 81 && unit_of(kind, q) == unit_of(kind, pos) && (#[trigger] g[q]) == i + 1;
    assert(peers(pos, q));
    assert(s[q] == g[q]);
    assert(fits(s, pos));
}

/// A grid without empty cells is its own and only filling.
pub proof fn lemma_full_grid(g: Seq<u8>)
    requires
        g.len() == 81,
        first_empty_from(g, 0, 81),
    ensures
        completes(g, g),
        forall|s: Seq<u8>| completes(s, g) ==> s == g,
        is_answer(g, g),
{
    assert(completes(g, g));
    assert forall|s: Seq<u8>| completes(s, g) implies s == g by {
        assert(s =~= g);
    }
}

/// A filling of `g` that puts `d` into the empty cell at `pos` is a filling
/// of the grid that has `d` written there.
pub proof fn lemma_filling_narrows(g: Seq<u8>, pos: int, d: u8, s: Seq<u8>)
    requires
        g.len() == 81,
        0 <= pos < 81,
        g[pos] == 0,
        completes(s, g),
        s[pos] == d,
    ensures
        completes(s, g.update(pos, d)),
{
    let h = g.update(pos, d);
    assert forall|p: int| 0 <= p < 81 implies if h[p] != 0 {
        s[p] == h[p]
    } else {
        fits(s, p)
    } by {
        if p != pos {
            assert(h[p] == g[p]);
        }
    }
}

/// Where no peer of the empty cell at `pos` holds `d`, a filling of the grid
/// with `d` written there is a filling of `g`.
pub proof fn lemma_filling_widens(g: Seq<u8>, pos: int, d: u8, s: Seq<u8>)
    requires
        g.len() == 81,
        0 <= pos < 81,
        g[pos] == 0,
        1 <= d <= 9,
        free_at(g, pos, d as int),
        completes(s, g.update(pos, d)),
    ensures
        completes(s, g),
{
    let h = g.update(pos, d);
    assert(h[pos] == d);
    assert(s[pos] == d);
    assert forall|p: int| 0 <= p < 81 implies if g[p] != 0 {
        s[p] == g[p]
    } else {
        fits(s, p)
    } by {
        if p != pos {
            assert(h[p] == g[p]);
        } else {
            assert forall|q: int| 0 <= q < 81 && peers(pos, q) implies #[trigger] s[q] != s[pos] by {
                assert(h[q] == g[q]);
                if g[q] != 0 {
                    assert(s[q] == h[q]);
                } else {
                    assert(fits(s, q));
                    assert(peers(q, pos));
                }
            }
        }
    }
}

/// One successful step of the search. The cell at `pos` is the first empty
/// cell of `g`, no filling of `g` has a digit below `d` there, and `out` is
/// the answer for the solvable grid with `d` written there: then `out` is the
/// answer for `g`.
pub proof fn lemma_step_succeeds(g: Seq<u8>, pos: int, d: u8, out: Seq<u8>)
    requires
        g.len() == 81,
        0 <= pos < 81,
        first_empty_from(g, 0, pos),
        1 <= d <= 9,
        free_at(g, pos, d as int),
        forall|s: Seq<u8>| completes(s, g) ==> #[trigger] s[pos] >= d,
        solvable(g.update(pos, d)),
        is_answer(g.update(pos, d), out),
    ensures
        solvable(g),
        is_answer(g, out),
{
    let h = g.update(pos, d);
    lemma_filling_widens(g, pos, d, out);
    assert(h[pos] == d);
    assert(out[pos] == d);
    assert forall|s: Seq<u8>| completes(s, g) implies lex_le(out, s) by {
        assert(s[pos] >= d);
        if s[pos] == d {
            lemma_filling_narrows(g, pos, d, s);
        } else {
            assert forall|j: int| 0 <= j < pos implies #[trigger] out[j] == s[j] by {
                assert(g[j] != 0);
                assert(h[j] == g[j]);
            }
            assert(out[pos] < s[pos]);
        }
    }
}

/// One failed step of the search: where the grid with `d` written into the
/// empty cell at `pos` has no filling, no filling of `g` has `d` there.
pub proof fn lemma_step_fails(g: Seq<u8>, pos: int, d: u8)
    requires
        g.len() == 81,
        0 <= pos < 81,
        g[pos] == 0,
        !solvable(g.update(pos, d)),
    ensures
        forall|s: Seq<u8>| completes(s, g) ==> #[trigger] s[pos] != d,
{
    assert forall|s: Seq<u8>| completes(s, g) implies #[trigger] s[pos] != d by {
        if s[pos] == d {
            lemma_filling_narrows(g, pos, d, s);
        }
    }
}

/// A set of nine digit indices holds every index from 0 to 8.
pub proof fn lemma_nine_indices(f: Set<int>)
    requires
        forall|i: int| f.contains(i) ==> 0 <= i < 9,
        f.finite() ==> f.len() == 9,
    ensures
        forall|i: int| 0 <= i < 9 ==> f.contains(i),
{
    let all = set_int_range(0, 9);
    lemma_int_range(0, 9);
    assert(f.subset_of(all));
    lemma_len_subset(f, all);
    lemma_subset_equality(f, all);
    assert forall|i: int| 0 <= i < 9 implies f.contains(i) by {
        assert(all.contains(i));
    }
}

} // verus!
