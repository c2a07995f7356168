//! The outside operations the engine relies on, with their contracts: the
//! bit set that stores the cells, and appending to a string.
use fixedbitset::FixedBitSet;
use vstd::prelude::*;

verus! {

#[verifier::external_type_specification]
#[verifier::external_body]
pub struct ExFixedBitSet(FixedBitSet);

/// What a bit set holds: one `bool` per bit, `true` where the bit is set.
/// Its length is the set's length in bits.
pub uninterp spec fn bits_of(b: FixedBitSet) -> Seq<bool>;

/// Relies on `FixedBitSet::with_capacity`: `n` bits, all clear.
#[verifier::external_body]
pub(crate) fn new_bits(n: usize) -> (r: FixedBitSet)
    ensures
        bits_of(r) == Seq::new(n as nat, |i: int| false),
{
    FixedBitSet::with_capacity(n)
}

/// Relies on `FixedBitSet::contains`: the state of bit `i`.
#[verifier::external_body]
pub(crate) fn get_bit(b: &FixedBitSet, i: usize) -> (r: bool)
    requires
        i < bits_of(*b).len(),
    ensures
        r == bits_of(*b)[i as int],
{
    b.contains(i)
}

/// Relies on `FixedBitSet::set`: bit `i` takes `v`, the others and the
/// length stay. It panics past the length, which `requires` rules out.
#[verifier::external_body]
pub(crate) fn set_bit(b: &mut FixedBitSet, i: usize, v: bool)
    requires
        i < bits_of(*old(b)).len(),
    ensures
        bits_of(*final(b)) == bits_of(*old(b)).update(i as int, v),
{
    b.set(i, v)
}

/// Relies on `FixedBitSet::clear`: every bit clear, the length kept.
#[verifier::external_body]
pub(crate) fn clear_bits(b: &mut FixedBitSet)
    ensures
        bits_of(*final(b)) == Seq::new(bits_of(*old(b)).len(), |i: int| false),
{
    b.clear()
}

/// Bit `i % 32` of block `i / 32`: bit `i` of a run of 32-bit blocks.
pub open spec fn block_bit(blocks: Seq<u32>, i: int) -> bool {
    0 <= i / 32 < blocks.len() && (blocks[i / 32] >> ((i % 32) as u32)) & 1u32 == 1u32
}

/// Relies on `FixedBitSet::as_slice`: the 32-bit blocks, as many as the bits
/// need, bit `i` being bit `i % 32` of block `i / 32`.
#[verifier::external_body]
pub(crate) fn blocks_of(b: &FixedBitSet) -> (r: &[u32])
    ensures
        r@.len() == (bits_of(*b).len() + 31) / 32,
        forall|i: int|
            #![trigger bits_of(*b)[i]]
            0 <= i < bits_of(*b).len() ==> block_bit(r@, i) == bits_of(*b)[i],
{
    b.as_slice()
}

/// Relies on `String::push`: `c` appended at the end.
#[verifier::external_body]
pub(crate) fn push_char(s: &mut String, c: char)
    ensures
        final(s)@ == old(s)@.push(c),
{
    s.push(c)
}

} // verus!
