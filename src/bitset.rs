//! Component and system masks, held in `fixedbitset::FixedBitSet`.
//!
//! A mask is seen through two names: the set of its enabled bits and its
//! length in bits. Every bitset of this crate is built by `with_capacity` and
//! changed only by `set` and `clear`.

use fixedbitset::FixedBitSet;
use vstd::prelude::*;

verus! {

#[verifier::external_type_specification]
#[verifier::external_body]
pub struct ExFixedBitSet(FixedBitSet);

/// The bits that are enabled in a bitset.
pub uninterp spec fn bits_of(s: FixedBitSet) -> Set<usize>;

/// The length of a bitset, in bits (enabled or not).
pub uninterp spec fn bit_len(s: FixedBitSet) -> nat;

/// Relies on `FixedBitSet::with_capacity`: `bits` bits, all clear.
pub assume_specification[ FixedBitSet::with_capacity ](bits: usize) -> (r: FixedBitSet)
    ensures
        bits_of(r) == Set::<usize>::empty(),
        bit_len(r) == bits as nat,
;

/// Relies on `FixedBitSet::contains`: whether the bit is enabled (false past
/// the length).
pub assume_specification[ FixedBitSet::contains ](s: &FixedBitSet, bit: usize) -> (r: bool)
    ensures
        r == bits_of(*s).contains(bit),
;

/// Relies on `FixedBitSet::set`: enables or clears one bit; it panics when the
/// bit is not below the length.
pub assume_specification[ FixedBitSet::set ](s: &mut FixedBitSet, bit: usize, enabled: bool)
    requires
        (bit as nat) < bit_len(*old(s)),
    ensures
        bits_of(*final(s)) == (if enabled {
            bits_of(*old(s)).insert(bit)
        } else {
            bits_of(*old(s)).remove(bit)
        }),
        bit_len(*final(s)) == bit_len(*old(s)),
;

/// Relies on `FixedBitSet::clear`: clears every bit and keeps the length.
pub assume_specification[ FixedBitSet::clear ](s: &mut FixedBitSet)
    ensures
        bits_of(*final(s)) == Set::<usize>::empty(),
        bit_len(*final(s)) == bit_len(*old(s)),
;

/// Relies on `FixedBitSet::is_subset`: every bit enabled in `s` is enabled in
/// `other`.
pub assume_specification[ FixedBitSet::is_subset ](s: &FixedBitSet, other: &FixedBitSet) -> (r: bool)
    ensures
        r == bits_of(*s).subset_of(bits_of(*other)),
;

/// Relies on `FixedBitSet::difference`, collected: the bits enabled in `a` and
/// not in `b`, in increasing order.
#[verifier::external_body]
pub(crate) fn difference_of(a: &FixedBitSet, b: &FixedBitSet) -> (r: Vec<usize>)
    ensures
        r@.to_set() == bits_of(*a).difference(bits_of(*b)),
        forall|i: int, j: int| 0 <= i < j < r@.len() ==> r@[i] < r@[j],
{
    a.difference(b).collect()
}

} // verus!
