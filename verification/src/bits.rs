//! The bit sets that record which digits a row, column or box already holds.
//!
//! The sets are `bit_set::BitSet` values. Nothing in this module is proved:
//! each function states what the corresponding `BitSet` method does.

use vstd::prelude::*;
use bit_set::BitSet;

verus! {

/// `bit_set::BitSet`, carried as an opaque value.
#[verifier::external_type_specification]
#[verifier::external_body]
#[verifier::reject_recursive_types(B)]
pub struct ExBitSet<B>(bit_set::BitSet<B>);

/// The integers that a bit set holds.
pub uninterp spec fn members(s: BitSet) -> Set<int>;

/// `BitSet::with_capacity`, asked for room for a few bits: the set it returns
/// holds nothing.
#[verifier::external_body]
pub(crate) fn bits_with_capacity(nbits: usize) -> (s: BitSet)
    requires
        nbits <= 64,
    ensures
        members(s) == Set::<int>::empty(),
{
    BitSet::with_capacity(nbits)
}

/// `BitSet::insert` of a small value: afterwards the set holds `value`
/// besides what it held, and the result tells whether `value` was new to it.
#[verifier::external_body]
pub(crate) fn bits_insert(s: &mut BitSet, value: usize) -> (fresh: bool)
    requires
        value < 64,
    ensures
        members(*final(s)) == members(*old(s)).insert(value as int),
        fresh == !members(*old(s)).contains(value as int),
{
    s.insert(value)
}

/// `BitSet::remove`: afterwards the set holds what it held except `value`,
/// and the result tells whether `value` was in it.
#[verifier::external_body]
pub(crate) fn bits_remove(s: &mut BitSet, value: usize) -> (present: bool)
    ensures
        members(*final(s)) == members(*old(s)).remove(value as int),
        present == members(*old(s)).contains(value as int),
{
    s.remove(value)
}

/// `BitSet::contains`: whether the set holds `value`.
#[verifier::external_body]
pub(crate) fn bits_contains(s: &BitSet, value: usize) -> (present: bool)
    ensures
        present == members(*s).contains(value as int),
{
    s.contains(value)
}

/// `BitSet::len`: the number of integers in the set, which is finite.
#[verifier::external_body]
pub(crate) fn bits_len(s: &BitSet) -> (n: usize)
    ensures
        members(*s).finite() ==> n == members(*s).len(),
{
    s.len()
}

/// `BitSet::union`, collected into a new set: it holds what either set holds.
#[verifier::external_body]
pub(crate) fn bits_union(a: &BitSet, b: &BitSet) -> (u: BitSet)
    ensures
        members(u) == members(*a).union(members(*b)),
{
    a.union(b).collect::<BitSet>()
}

} // verus!
