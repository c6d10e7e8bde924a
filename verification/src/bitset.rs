//! Trusted boundary around the packed bit container and the random source.
//!
//! The grid's cells live in a `fixedbitset::FixedBitSet`. Verus does not read
//! that crate, so the container is declared opaque, its contents are named by
//! the uninterpreted `bits_of`, and each operation the grid logic needs is a
//! small wrapper whose contract states what the container's source shows.

use vstd::prelude::*;
use fixedbitset::FixedBitSet;

verus! {

#[verifier::external_type_specification]
#[verifier::external_body]
pub struct ExFixedBitSet(FixedBitSet);

/// The bits a `FixedBitSet` holds, in index order; its length is the
/// capacity the set was created with.
pub uninterp spec fn bits_of(b: FixedBitSet) -> Seq<bool>;

/// Relies on FixedBitSet::with_capacity: a set of exactly `bits` bits,
/// all initially clear.
#[verifier::external_body]
pub(crate) fn bits_new(bits: usize) -> (r: FixedBitSet)
    ensures
        bits_of(r).len() == bits,
        forall|i: int| 0 <= i < bits ==> !bits_of(r)[i],
{
    FixedBitSet::with_capacity(bits)
}

/// Relies on FixedBitSet::contains: returns the bit at `i`
/// (in bounds here, so never the out-of-range `false` case).
#[verifier::external_body]
pub(crate) fn bits_get(b: &FixedBitSet, i: usize) -> (r: bool)
    requires
        i < bits_of(*b).len(),
    ensures
        r == bits_of(*b)[i as int],
{
    b.contains(i)
}

/// Relies on FixedBitSet::set: writes one bit; it panics out of bounds,
/// which the `requires` excludes.
#[verifier::external_body]
pub(crate) fn bits_set(b: &mut FixedBitSet, i: usize, v: bool)
    requires
        i < bits_of(*old(b)).len(),
    ensures
        bits_of(*final(b)) == bits_of(*old(b)).update(i as int, v),
{
    b.set(i, v)
}

/// Relies on FixedBitSet::insert: enables one bit; it panics out of bounds,
/// which the `requires` excludes.
#[verifier::external_body]
pub(crate) fn bits_insert(b: &mut FixedBitSet, i: usize)
    requires
        i < bits_of(*old(b)).len(),
    ensures
        bits_of(*final(b)) == bits_of(*old(b)).update(i as int, true),
{
    b.insert(i)
}

/// Relies on FixedBitSet::toggle: inverts one bit; it panics out of bounds,
/// which the `requires` excludes.
#[verifier::external_body]
pub(crate) fn bits_toggle(b: &mut FixedBitSet, i: usize)
    requires
        i < bits_of(*old(b)).len(),
    ensures
        bits_of(*final(b)) == bits_of(*old(b)).update(i as int, !bits_of(*old(b))[i as int]),
{
    b.toggle(i)
}

/// Relies on FixedBitSet::clear: disables every bit and keeps the capacity.
#[verifier::external_body]
pub(crate) fn bits_clear(b: &mut FixedBitSet)
    ensures
        bits_of(*final(b)).len() == bits_of(*old(b)).len(),
        forall|i: int| 0 <= i < bits_of(*final(b)).len() ==> !bits_of(*final(b))[i],
{
    b.clear()
}

/// Relies on FixedBitSet's Clone impl: the copy holds the same blocks and
/// the same length, so the same bits.
#[verifier::external_body]
pub(crate) fn bits_clone(b: &FixedBitSet) -> (r: FixedBitSet)
    ensures
        bits_of(r) == bits_of(*b),
{
    b.clone()
}

/// Relies on rand::random_ratio: a Bernoulli draw that is true with
/// probability `numerator / denominator`. Nothing is promised of a single
/// draw beyond the two guaranteed endpoints; it panics when
/// `denominator == 0` or `numerator > denominator`, which the `requires`
/// excludes.
#[verifier::external_body]
pub(crate) fn random_ratio(numerator: u32, denominator: u32) -> (r: bool)
    requires
        0 < denominator,
        numerator <= denominator,
    ensures
        numerator == denominator ==> r,
        numerator == 0 ==> !r,
{
    rand::random_ratio(numerator, denominator)
}

/// Relies on String's FromIterator impl: collects the characters in order.
#[verifier::external_body]
pub(crate) fn chars_to_string(v: Vec<char>) -> (r: String)
    ensures
        r@ == v@,
{
    v.into_iter().collect()
}

} // verus!
