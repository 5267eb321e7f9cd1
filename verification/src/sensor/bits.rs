//! Numbers that arrive bit by bit, the most significant bit first.

use vstd::arithmetic::power2::{lemma2_to64, lemma_pow2_unfold, pow2};
use vstd::prelude::*;

verus! {

/// The number that the bits `bits` spell, the first bit being the most
/// significant.
pub open spec fn unsigned_value(bits: Seq<bool>) -> nat
    decreases bits.len(),
{
    if bits.len() == 0 {
        0
    } else {
        2 * unsigned_value(bits.drop_last()) + if bits.last() {
            1nat
        } else {
            0nat
        }
    }
}

/// The bits of a frame spell a number below two to the number of bits.
pub proof fn lemma_unsigned_value_bound(bits: Seq<bool>)
    requires
        bits.len() <= 24,
    ensures
        unsigned_value(bits) < pow2(bits.len()),
    decreases bits.len(),
{
    lemma2_to64();
    if bits.len() > 0 {
        lemma_unsigned_value_bound(bits.drop_last());
        lemma_pow2_unfold(bits.len());
    }
}

} // verus!
