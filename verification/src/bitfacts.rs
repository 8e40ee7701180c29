//! Small facts about masks and shifts, shared by the bit-level modules.
use vstd::prelude::*;

verus! {

pub proof fn lemma_u32_masks(x: u32)
    by (bit_vector)
    ensures
        x & 7 <= 7,
        x & 3 <= 3,
        x & 1 <= 1,
        x & 7 == x % 8,
{
}

pub proof fn lemma_u64_masks(x: u64)
    by (bit_vector)
    ensures
        x & 7 == x % 8,
        x & 0xff == x % 256,
        x & 7 <= 7,
        x & 63 == x % 64,
        x & 31 == x % 32,
{
}

pub proof fn lemma_u8_masks(x: u8)
    by (bit_vector)
    ensures
        x & 7 <= 7,
        x & 1 <= 1,
        x >> 5u8 < 8,
{
}

pub proof fn lemma_usize_masks(x: usize)
    by (bit_vector)
    ensures
        x & 7 == x % 8,
        x >> 3usize == x / 8,
{
}

} // verus!
