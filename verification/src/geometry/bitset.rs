//! The bit vector that records which proxies exist.

use bit_vec::BitVec;
use vstd::prelude::*;

verus! {

/// `bit_vec::BitVec`, a growable vector of bits. Nothing is known of a value
/// but the bits that [`bit_values`] names.
#[verifier::external_type_specification]
#[verifier::external_body]
#[verifier::reject_recursive_types(B)]
pub struct ExBitVec<B>(BitVec<B>);

/// The bits that a bit vector holds, from index zero on.
pub uninterp spec fn bit_values(bits: BitVec) -> Seq<bool>;

/// `BitVec::len`: the number of bits that the vector holds.
#[verifier::external_body]
pub(crate) fn bit_count(bits: &BitVec) -> (n: usize)
    ensures
        n == bit_values(*bits).len(),
{
    bits.len()
}

/// Indexing a `BitVec`: the bit at index `i`. The index must be in range,
/// as the indexing panics otherwise.
#[verifier::external_body]
pub(crate) fn bit_at(bits: &BitVec, i: usize) -> (bit: bool)
    requires
        i < bit_values(*bits).len(),
    ensures
        bit == bit_values(*bits)[i as int],
{
    bits[i]
}

/// `BitVec::set`: the bit at index `i` becomes `x` and no other bit changes.
/// The index must be in range, as `set` panics otherwise.
#[verifier::external_body]
pub(crate) fn set_bit(bits: &mut BitVec, i: usize, x: bool)
    requires
        i < bit_values(*old(bits)).len(),
    ensures
        bit_values(*final(bits)) == bit_values(*old(bits)).update(i as int, x),
{
    bits.set(i, x)
}

/// Number of bits that are set.
pub open spec fn spec_count_set(bits: Seq<bool>) -> nat
    decreases bits.len(),
{
    if bits.len() == 0 {
        0
    } else if bits.last() {
        spec_count_set(bits.drop_last()) + 1
    } else {
        spec_count_set(bits.drop_last())
    }
}

/// Clearing a bit that is set lowers the count of set bits by one.
pub proof fn lemma_count_set_clear(bits: Seq<bool>, i: int)
    requires
        0 <= i < bits.len(),
        bits[i],
    ensures
        spec_count_set(bits.update(i, false)) + 1 == spec_count_set(bits),
    decreases bits.len(),
{
    let cleared = bits.update(i, false);
    if i == bits.len() - 1 {
        assert(cleared.drop_last() =~= bits.drop_last());
    } else {
        lemma_count_set_clear(bits.drop_last(), i);
        assert(cleared.drop_last() =~= bits.drop_last().update(i, false));
    }
}

} // verus!
