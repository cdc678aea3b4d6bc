//! The codepoint sets of the font catalog, kept in `bit_set::BitSet`.
//!
//! Verus does not look inside a `BitSet`. What one holds is named by [`members`], and every
//! operation the catalog uses is called through a function of this file whose contract says,
//! over that name, what the operation does. These contracts are taken on trust from the
//! code of the `bit-set` crate.

use bit_set::BitSet;
use vstd::prelude::*;

verus! {

/// The largest codepoint a coverage set may hold.
pub const MAX_UNICODE_CP: usize = 0xFFFF;

#[verifier::external_type_specification]
#[verifier::external_body]
#[verifier::reject_recursive_types(B)]
pub struct ExBitSet<B>(BitSet<B>);

/// The integers that `set` holds.
pub uninterp spec fn members(set: BitSet) -> Set<usize>;

/// `BitSet::with_capacity`: a set that holds nothing, with room for `nbits` values.
#[verifier::external_body]
pub(crate) fn with_capacity(nbits: usize) -> (set: BitSet)
    requires
        nbits <= MAX_UNICODE_CP + 1,
    ensures
        members(set) == Set::<usize>::empty(),
{
    BitSet::with_capacity(nbits)
}

/// `BitSet::insert`: adds `value` to the set and tells whether it was absent before.
#[verifier::external_body]
pub(crate) fn insert(set: &mut BitSet, value: usize) -> (fresh: bool)
    requires
        value <= MAX_UNICODE_CP,
    ensures
        members(*final(set)) == members(*old(set)).insert(value),
        fresh == !members(*old(set)).contains(value),
{
    set.insert(value)
}

/// `BitSet::contains`: whether `value` is in the set.
#[verifier::external_body]
pub(crate) fn contains(set: &BitSet, value: usize) -> (found: bool)
    ensures
        found == members(*set).contains(value),
{
    set.contains(value)
}

/// `BitSet::is_empty`: whether the set holds nothing.
#[verifier::external_body]
pub(crate) fn is_empty(set: &BitSet) -> (empty: bool)
    ensures
        empty == (members(*set) == Set::<usize>::empty()),
{
    set.is_empty()
}

/// `BitSet::clone`: a set with the same members.
#[verifier::external_body]
pub(crate) fn duplicate(set: &BitSet) -> (copy: BitSet)
    ensures
        members(copy) == members(*set),
{
    set.clone()
}

/// `BitSet::intersect_with`: keeps in `set` only what `other` holds too.
#[verifier::external_body]
pub(crate) fn intersect_with(set: &mut BitSet, other: &BitSet)
    ensures
        members(*final(set)) == members(*old(set)).intersect(members(*other)),
{
    set.intersect_with(other)
}

/// `BitSet::difference_with`: removes from `set` whatever `other` holds.
#[verifier::external_body]
pub(crate) fn difference_with(set: &mut BitSet, other: &BitSet)
    ensures
        members(*final(set)) == members(*old(set)).difference(members(*other)),
{
    set.difference_with(other)
}

/// `BitSet::iter`, collected: the members, each once, from the smallest to the largest.
/// The iterator walks the blocks of bits from the lowest, and each block from its lowest
/// bit.
#[verifier::external_body]
pub(crate) fn to_vec(set: &BitSet) -> (values: Vec<usize>)
    ensures
        forall|i: int, j: int| 0 <= i < j < values@.len() ==> values@[i] < values@[j],
        forall|v: usize| values@.contains(v) <==> members(*set).contains(v),
{
    set.iter().collect()
}

} // verus!
