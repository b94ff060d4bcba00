//! The flag field of a track: the bits that the text format gives meaning to.

use vstd::prelude::*;

verus! {

/// The flag bit that says the track has a reference expression.
pub const REFERENCE: u32 = 0b0000_1000;

/// Whether `bits` holds the reference bit.
pub open spec fn has_reference(bits: u32) -> bool {
    bits & REFERENCE == REFERENCE
}

/// `bits` with the reference bit set when `on`, cleared otherwise.
pub open spec fn spec_with_reference(bits: u32, on: bool) -> u32 {
    if on {
        bits | REFERENCE
    } else {
        bits & !REFERENCE
    }
}

/// Whether `bits` holds the reference bit.
pub fn contains_reference(bits: u32) -> (r: bool)
    ensures
        r == has_reference(bits),
{
    bits & REFERENCE == REFERENCE
}

/// `bits` with the reference bit set when `on`, cleared otherwise.
pub fn with_reference(bits: u32, on: bool) -> (r: u32)
    ensures
        r == spec_with_reference(bits, on),
{
    if on {
        bits | REFERENCE
    } else {
        bits & !REFERENCE
    }
}

/// Setting the reference bit to what it already is changes nothing.
pub proof fn lemma_with_reference_unchanged(bits: u32)
    ensures
        spec_with_reference(bits, has_reference(bits)) == bits,
{
    assert(bits & 8u32 == 8u32 ==> bits | 8u32 == bits) by (bit_vector);
    assert(bits & 8u32 != 8u32 ==> bits & !8u32 == bits) by (bit_vector);
}

} // verus!
