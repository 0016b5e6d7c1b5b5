//! Facts about single bits of a 32-bit mask.

use vstd::prelude::*;

verus! {

/// Number of bits in a mask.
pub const MASK_WIDTH: u32 = 32;

/// Whether bit `index` is set in `mask`.
pub open spec fn has_bit(mask: u32, index: u32) -> bool {
    mask & (1u32 << index) != 0
}

/// The positions of the bits that are set in `mask`.
pub open spec fn bits_of(mask: u32) -> Set<nat> {
    Set::new(|t: nat| t < MASK_WIDTH && has_bit(mask, t as u32))
}

/// Tests bit `index` of `mask`.
pub fn test_bit(mask: u32, index: u32) -> (set: bool)
    requires
        index < MASK_WIDTH,
    ensures
        set == has_bit(mask, index),
        set == bits_of(mask).contains(index as nat),
{
    mask & (1u32 << index) != 0
}

/// Setting bit `i` sets that bit and leaves every other bit as it was.
pub proof fn lemma_set_bit(mask: u32, i: u32, j: u32)
    requires
        i < MASK_WIDTH,
        j < MASK_WIDTH,
    ensures
        has_bit(mask | (1u32 << i), j) <==> (has_bit(mask, j) || i == j),
{
    assert(i < 32 && j < 32 ==> ((mask | (1u32 << i)) & (1u32 << j) != 0 <==> (mask & (1u32 << j)
        != 0 || i == j))) by (bit_vector);
}

/// The union of two masks holds exactly the bits of either.
pub proof fn lemma_or_bit(a: u32, b: u32, j: u32)
    ensures
        has_bit(a | b, j) <==> (has_bit(a, j) || has_bit(b, j)),
{
    assert(((a | b) & (1u32 << j) != 0) <==> (a & (1u32 << j) != 0 || b & (1u32 << j) != 0))
        by (bit_vector);
}

/// The intersection of two masks holds exactly the bits of both.
pub proof fn lemma_and_bit(a: u32, b: u32, j: u32)
    ensures
        has_bit(a & b, j) <==> (has_bit(a, j) && has_bit(b, j)),
{
    assert(((a & b) & (1u32 << j) != 0) <==> (a & (1u32 << j) != 0 && b & (1u32 << j) != 0))
        by (bit_vector);
}

/// The zero mask has no bit set.
pub proof fn lemma_zero_has_no_bit(j: u32)
    ensures
        !has_bit(0, j),
{
    assert(0u32 & (1u32 << j) == 0) by (bit_vector);
}

/// The full mask has every bit set.
pub proof fn lemma_full_has_every_bit(j: u32)
    requires
        j < MASK_WIDTH,
    ensures
        has_bit(0xffff_ffff, j),
{
    assert(j < 32 ==> 0xffff_ffffu32 & (1u32 << j) != 0) by (bit_vector);
}

/// A mask other than zero has some bit set.
pub proof fn lemma_nonzero_has_bit(mask: u32) -> (j: u32)
    requires
        mask != 0,
    ensures
        j < MASK_WIDTH,
        has_bit(mask, j),
{
    let j = lemma_differ_in_bit(mask, 0);
    lemma_zero_has_no_bit(j);
    j
}

/// Two different masks differ in some bit.
pub proof fn lemma_differ_in_bit(a: u32, b: u32) -> (j: u32)
    requires
        a != b,
    ensures
        j < MASK_WIDTH,
        has_bit(a, j) != has_bit(b, j),
{
    assert(a != b ==> (a ^ b) != 0) by (bit_vector);
    let x = a ^ b;
    assert(x >> 0u32 == x) by (bit_vector);
    let j = lowest_bit(x, 0);
    assert(has_bit(x, j) ==> (has_bit(a, j) != has_bit(b, j))) by {
        assert(((a ^ b) & (1u32 << j) != 0) ==> ((a & (1u32 << j) != 0) != (b & (1u32 << j) != 0)))
            by (bit_vector);
    }
    j
}

/// The lowest position at or above `from` whose bit is set in `mask`.
proof fn lowest_bit(mask: u32, from: u32) -> (j: u32)
    requires
        from < MASK_WIDTH,
        mask >> from != 0,
    ensures
        from <= j < MASK_WIDTH,
        has_bit(mask, j),
    decreases MASK_WIDTH - from,
{
    if has_bit(mask, from) {
        from
    } else {
        assert(from < 32 && mask >> from != 0 && mask & (1u32 << from) == 0 ==> from < 31 && mask
            >> ((from + 1) as u32) != 0) by (bit_vector);
        lowest_bit(mask, (from + 1) as u32)
    }
}

/// A mask is determined by the positions of its set bits.
pub proof fn lemma_bits_of_injective(a: u32, b: u32)
    requires
        bits_of(a) == bits_of(b),
    ensures
        a == b,
{
    if a != b {
        let j = lemma_differ_in_bit(a, b);
        assert(bits_of(a).contains(j as nat) == has_bit(a, j));
        assert(bits_of(b).contains(j as nat) == has_bit(b, j));
    }
}

} // verus!
