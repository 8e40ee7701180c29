//! Geometry of a 32-bit nonce read as a path of 3-bit figures.
use vstd::prelude::*;

verus! {

/// Figure `level` (0..10) of a nonce: bits `31-3*level ..= 29-3*level`.
pub open spec fn figure_at(nonce: u32, level: nat) -> u32 {
    (nonce >> ((29 - 3 * level) as u32)) & 7
}

/// The figure that the "L9" experiments read: bits 7..5 of the nonce.
pub open spec fn l9_spec(nonce: u32) -> u32 {
    (nonce >> 5) & 7
}

/// Mask that clears bits 7..5.
pub open spec fn l9_clear_mask() -> u32 {
    !(7u32 << 5)
}

/// Value of the figures path: ten 3-bit figures followed by the 2-bit tail.
pub open spec fn path_value(path: Seq<u8>) -> int
    recommends
        path.len() == 11,
{
    path[0] * 0x2000_0000 + path[1] * 0x0400_0000 + path[2] * 0x0080_0000 + path[3] * 0x0010_0000
        + path[4] * 0x0002_0000 + path[5] * 0x4000 + path[6] * 0x800 + path[7] * 0x100
        + path[8] * 0x20 + path[9] * 4 + path[10]
}

/// Splits a nonce into its ten 3-bit figures (most significant first) and
/// the final two bits.
pub fn x1331_path(nonce: u32) -> (path: Vec<u8>)
    ensures
        path@.len() == 11,
        forall|l: int| 0 <= l < 10 ==> #[trigger] path@[l] == figure_at(nonce, l as nat),
        path@[10] == nonce & 3,
        path_value(path@) == nonce,
{
    let mut path: Vec<u8> = Vec::new();
    let mut level: u32 = 0;
    while level < 10
        invariant
            level <= 10,
            path@.len() == level,
            forall|l: int| 0 <= l < level ==> #[trigger] path@[l] == figure_at(nonce, l as nat),
        decreases 10 - level,
    {
        let shift = 32 - (level + 1) * 3;
        assert(shift == 29 - 3 * level);
        proof { crate::bitfacts::lemma_u32_masks(nonce >> shift); }
        path.push(((nonce >> shift) & 7) as u8);
        level = level + 1;
    }
    proof { crate::bitfacts::lemma_u32_masks(nonce); }
    path.push((nonce & 3) as u8);
    proof {
        lemma_path_value(nonce);
    }
    path
}

/// The same split returned as a fixed array.
pub fn x1331_states(nonce: u32) -> (states: [u8; 11])
    ensures
        forall|l: int| 0 <= l < 10 ==> #[trigger] states@[l] == figure_at(nonce, l as nat),
        states@[10] == nonce & 3,
        path_value(states@) == nonce,
{
    let mut states = [0u8; 11];
    let mut level: usize = 0;
    while level < 10
        invariant
            level <= 10,
            states@.len() == 11,
            forall|l: int| 0 <= l < level ==> #[trigger] states@[l] == figure_at(nonce, l as nat),
        decreases 10 - level,
    {
        let shift = (29 - level * 3) as u32;
        proof { crate::bitfacts::lemma_u32_masks(nonce >> shift); }
        states[level] = ((nonce >> shift) & 7) as u8;
        level = level + 1;
    }
    proof { crate::bitfacts::lemma_u32_masks(nonce); }
    states[10] = (nonce & 3) as u8;
    proof {
        lemma_path_value(nonce);
    }
    states
}

/// Path law: the ten figures and the 2-bit tail recompose the nonce.
pub proof fn lemma_path_value(nonce: u32)
    ensures
        figure_at(nonce, 0) * 0x2000_0000 + figure_at(nonce, 1) * 0x0400_0000 + figure_at(nonce, 2)
            * 0x0080_0000 + figure_at(nonce, 3) * 0x0010_0000 + figure_at(nonce, 4) * 0x0002_0000
            + figure_at(nonce, 5) * 0x4000 + figure_at(nonce, 6) * 0x800 + figure_at(nonce, 7)
            * 0x100 + figure_at(nonce, 8) * 0x20 + figure_at(nonce, 9) * 4 + (nonce & 3) == nonce,
{
    assert(((nonce >> 29u32) & 7) * 0x2000_0000 + ((nonce >> 26u32) & 7) * 0x0400_0000
        + ((nonce >> 23u32) & 7) * 0x0080_0000 + ((nonce >> 20u32) & 7) * 0x0010_0000
        + ((nonce >> 17u32) & 7) * 0x0002_0000 + ((nonce >> 14u32) & 7) * 0x4000
        + ((nonce >> 11u32) & 7) * 0x800 + ((nonce >> 8u32) & 7) * 0x100
        + ((nonce >> 5u32) & 7) * 0x20 + ((nonce >> 2u32) & 7) * 4 + (nonce & 3) == nonce)
        by (bit_vector);
}

/// Figure `level` of a nonce, `level` in 0..10.
pub fn x1331_state(nonce: u32, level: usize) -> (r: usize)
    requires
        level < 10,
    ensures
        r == figure_at(nonce, level as nat),
        r < 8,
{
    let shift = 29 - level * 3;
    proof { crate::bitfacts::lemma_u32_masks(nonce >> (shift as u32)); }
    ((nonce >> (shift as u32)) & 7) as usize
}

/// Bits 7..5 of a nonce.
pub fn l9_state(nonce: u32) -> (r: usize)
    ensures
        r == l9_spec(nonce),
        r < 8,
{
    proof { crate::bitfacts::lemma_u32_masks(nonce >> 5u32); }
    ((nonce >> 5) & 7) as usize
}

/// Replaces bits 7..5 of `raw` by the low three bits of `state`.
pub fn force_l9_state(raw: u32, state: usize) -> (r: u32)
    ensures
        l9_spec(r) == state % 8,
        r & l9_clear_mask() == raw & l9_clear_mask(),
{
    proof {
        crate::bitfacts::lemma_usize_masks(state);
    }
    let s = (state & 7) as u32;
    let mask = !(7u32 << 5);
    let r = (raw & mask) | (s << 5);
    assert(((r >> 5u32) & 7 == s) && (r & !(7u32 << 5u32)) == (raw & !(7u32 << 5u32)))
        by (bit_vector)
        requires
            s < 8,
            r == (raw & !(7u32 << 5u32)) | (s << 5u32),
    ;
    r
}

/// Writes `state` at bit 5 of `raw` after clearing bits 7..5; a state of
/// eight or more also sets higher bits, as the shift places them there.
pub fn force_state(raw: u32, state: usize) -> (r: u32)
    ensures
        r == (raw & l9_clear_mask()) | ((state as u32) << 5u32),
        state < 8 ==> l9_spec(r) == state,
        state < 8 ==> r & l9_clear_mask() == raw & l9_clear_mask(),
{
    let s = #[verifier::truncate] (state as u32);
    let r = (raw & !(7u32 << 5)) | (s << 5);
    assert(s < 8 ==> ((r >> 5u32) & 7 == s) && (r & !(7u32 << 5u32)) == (raw & !(7u32 << 5u32)))
        by (bit_vector)
        requires
            r == (raw & !(7u32 << 5u32)) | (s << 5u32),
    ;
    r
}

/// Bit `b` of a nonce.
pub fn bit(nonce: u32, b: usize) -> (r: usize)
    requires
        b < 32,
    ensures
        r == (nonce >> (b as u32)) & 1,
        r <= 1,
{
    proof { crate::bitfacts::lemma_u32_masks(nonce >> (b as u32)); }
    ((nonce >> (b as u32)) & 1) as usize
}

/// Whether bit 7 of the nonce is set.
pub fn bit7_is_one(nonce: u32) -> (r: bool)
    ensures
        r == ((nonce >> 7u32) & 1 == 1),
{
    ((nonce >> 7) & 1) == 1
}

/// Number of set bits of a byte.
pub open spec fn popcount8(x: u8) -> nat {
    partial_popcount(x, 8)
}

/// Number of set bits of a byte.
pub fn hamming_weight(state: u8) -> (r: usize)
    ensures
        r == popcount8(state),
        r <= 8,
{
    let mut count: usize = 0;
    let mut k: u8 = 0;
    while k < 8
        invariant
            k <= 8,
            count <= k,
            count == partial_popcount(state, k as nat),
        decreases 8 - k,
    {
        proof { crate::bitfacts::lemma_u8_masks(state >> k); }
        count = count + ((state >> k) & 1) as usize;
        k = k + 1;
    }
    count
}

/// Set bits among the lowest `k` bits of `x`.
pub open spec fn partial_popcount(x: u8, k: nat) -> nat
    decreases k,
{
    if k == 0 {
        0
    } else {
        partial_popcount(x, (k - 1) as nat) + ((x >> ((k - 1) as u8)) & 1) as nat
    }
}

/// The candidate nonce `index` of the state class `state`: nonces are
/// partitioned by their low three bits.
pub fn nonce_for(state: usize, index: u32) -> (r: u32)
    requires
        state < 8,
    ensures
        r == index.wrapping_mul(8).wrapping_add(state as u32),
        r % 8 == state,
{
    let r = index.wrapping_mul(8).wrapping_add(state as u32);
    proof {
        lemma_class_offset(index as int, state as int);
    }
    r
}

proof fn lemma_class_offset(i: int, s: int)
    requires
        0 <= i,
        0 <= s < 8,
    ensures
        (((i * 8) % 0x1_0000_0000 + s) % 0x1_0000_0000) % 8 == s,
{
    let m: int = 0x1_0000_0000;
    let q = (i * 8) % m;
    vstd::arithmetic::div_mod::lemma_mod_mod(i * 8, 8, 0x2000_0000);
    vstd::arithmetic::div_mod::lemma_mod_multiples_vanish(i, 0, 8);
    assert(q % 8 == 0);
    vstd::arithmetic::div_mod::lemma_fundamental_div_mod(q, 8);
    assert(0 <= q < m);
    assert(q + s < m) by (nonlinear_arith)
        requires
            q == 8 * (q / 8),
            0 <= q < m,
            m == 0x1_0000_0000,
            0 <= s < 8,
    ;
    vstd::arithmetic::div_mod::lemma_small_mod((q + s) as nat, m as nat);
    vstd::arithmetic::div_mod::lemma_mod_multiples_vanish(q / 8, s, 8);
    vstd::arithmetic::div_mod::lemma_small_mod(s as nat, 8);
}

/// The nonce of the `counter`-th step of a job: the counter's low 32 bits
/// times an odd constant, plus the job's offset, modulo 2^32.
pub open spec fn job_nonce_spec(nonce_offset: u32, counter: u64) -> u32 {
    (counter as u32).wrapping_mul(0x9E37_79B1).wrapping_add(nonce_offset)
}

/// The nonce tried on the `counter`-th step of a pool job.
pub fn job_nonce(nonce_offset: u32, counter: u64) -> (r: u32)
    ensures
        r == job_nonce_spec(nonce_offset, counter),
{
    (#[verifier::truncate] (counter as u32)).wrapping_mul(0x9E37_79B1).wrapping_add(nonce_offset)
}

/// Multiplying by the walk's constant, then by its inverse modulo 2^32,
/// gives back the value.
proof fn lemma_multiplier_inverse(x: u32)
    ensures
        ((((x * 0x9E37_79B1u32) % 0x1_0000_0000) as u32 * 0x0E8B_2F51u32) % 0x1_0000_0000) == x,
{
    assert(((((x * 0x9E37_79B1u32) % 0x1_0000_0000) as u32 * 0x0E8B_2F51u32) % 0x1_0000_0000) == x)
        by (bit_vector);
}

/// Nonce-walk law: the multiplier is odd, so the walk is a bijection of
/// 32-bit counters; two counters below 2^32 never give the same nonce.
pub proof fn lemma_job_nonce_injective(nonce_offset: u32, a: u64, b: u64)
    requires
        a < 0x1_0000_0000,
        b < 0x1_0000_0000,
        a != b,
    ensures
        job_nonce_spec(nonce_offset, a) != job_nonce_spec(nonce_offset, b),
{
    let ma = (a as u32).wrapping_mul(0x9E37_79B1);
    let mb = (b as u32).wrapping_mul(0x9E37_79B1);
    assert(a as u32 == a && b as u32 == b) by (bit_vector)
        requires
            a < 0x1_0000_0000u64,
            b < 0x1_0000_0000u64,
    ;
    if ma == mb {
        lemma_multiplier_inverse(a as u32);
        lemma_multiplier_inverse(b as u32);
        assert(false);
    }
}

/// A 3-bit figure has at most three set bits: its own three.
pub proof fn lemma_figure_weight(f: u8)
    requires
        f < 8,
    ensures
        popcount8(f) == ((f >> 2u8) & 1) + ((f >> 1u8) & 1) + (f & 1),
        popcount8(f) <= 3,
{
    reveal_with_fuel(partial_popcount, 9);
    assert((f >> 3u8) & 1 == 0 && (f >> 4u8) & 1 == 0 && (f >> 5u8) & 1 == 0 && (f >> 6u8) & 1 == 0
        && (f >> 7u8) & 1 == 0 && (f >> 0u8) & 1 == f & 1 && (f >> 2u8) & 1 <= 1 && (f >> 1u8) & 1
        <= 1 && f & 1 <= 1) by (bit_vector)
        requires
            f < 8u8,
    ;
}

} // verus!
