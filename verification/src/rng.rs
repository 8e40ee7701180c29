//! SplitMix64: the deterministic generator behind every seeded experiment.
use vstd::prelude::*;

verus! {

/// Weyl increment added to the state on every step.
pub const GAMMA: u64 = 0x9E37_79B9_7F4A_7C15;

/// State after one step.
pub open spec fn next_state_spec(s: u64) -> u64 {
    s.wrapping_add(GAMMA)
}

/// The output derived from an (already advanced) state.
pub open spec fn mix_spec(state: u64) -> u64 {
    let z1 = (state ^ (state >> 30)).wrapping_mul(0xBF58_476D_1CE4_E5B9);
    let z2 = (z1 ^ (z1 >> 27)).wrapping_mul(0x94D0_49BB_1331_11EB);
    z2 ^ (z2 >> 31)
}

/// State after `n` steps from `seed`.
pub open spec fn state_after(seed: u64, n: nat) -> u64
    decreases n,
{
    if n == 0 {
        seed
    } else {
        next_state_spec(state_after(seed, (n - 1) as nat))
    }
}

/// The `n`-th output (counting from 0) of a generator seeded with `seed`.
pub open spec fn output_at(seed: u64, n: nat) -> u64 {
    mix_spec(state_after(seed, n + 1))
}

/// Advances `*s` by one step and returns the mixed output.
pub fn splitmix64(s: &mut u64) -> (r: u64)
    ensures
        *final(s) == next_state_spec(*old(s)),
        r == mix_spec(*final(s)),
{
    *s = s.wrapping_add(GAMMA);
    let mut z = *s;
    z = (z ^ (z >> 30)).wrapping_mul(0xBF58_476D_1CE4_E5B9);
    z = (z ^ (z >> 27)).wrapping_mul(0x94D0_49BB_1331_11EB);
    z ^ (z >> 31)
}

/// The low 32 bits of the next output, used as a candidate nonce.
pub fn next_nonce(s: &mut u64) -> (r: u32)
    ensures
        *final(s) == next_state_spec(*old(s)),
        r == mix_spec(*final(s)) as u32,
{
    splitmix64(s) as u32
}

/// Weyl law: after `n` steps the state is `seed + n * GAMMA` modulo 2^64.
pub proof fn lemma_state_is_weyl_sequence(seed: u64, n: nat)
    ensures
        state_after(seed, n) as int == (seed + n * GAMMA) % 0x1_0000_0000_0000_0000,
    decreases n,
{
    if n > 0 {
        lemma_state_is_weyl_sequence(seed, (n - 1) as nat);
        let m: int = 0x1_0000_0000_0000_0000;
        let prev: int = state_after(seed, (n - 1) as nat) as int;
        assert(prev == (seed + (n - 1) * GAMMA) % m);
        assert(state_after(seed, n) as int == (prev + GAMMA) % m);
        vstd::arithmetic::div_mod::lemma_add_mod_noop(seed + (n - 1) * GAMMA, GAMMA as int, m);
        vstd::arithmetic::div_mod::lemma_small_mod(GAMMA as nat, m as nat);
        vstd::arithmetic::div_mod::lemma_mod_twice(seed + (n - 1) * GAMMA, m);
        assert(seed + (n - 1) * GAMMA + GAMMA == seed + n * GAMMA) by (nonlinear_arith);
    }
}

/// Multiplying by `GAMMA` modulo 2^64 is undone by multiplying by its inverse.
proof fn lemma_gamma_invertible(d: u64)
    ensures
        ((d * 0x9E37_79B9_7F4A_7C15u64) as u64 * 0xF1DE_83E1_9937_733Du64) as u64 == d,
        (d * 0x9E37_79B9_7F4A_7C15u64) as u64 == (d * 0x9E37_79B9_7F4A_7C15u64) % 0x1_0000_0000_0000_0000,
{
    assert(((d * 0x9E37_79B9_7F4A_7C15u64) as u64 * 0xF1DE_83E1_9937_733Du64) as u64 == d) by (bit_vector);
    assert((d * 0x9E37_79B9_7F4A_7C15u64) as u64 == (d * 0x9E37_79B9_7F4A_7C15u64) % 0x1_0000_0000_0000_0000)
        by (bit_vector);
}

/// Period law: the first 2^64 states of a generator are all different.
pub proof fn lemma_states_distinct(seed: u64, a: nat, b: nat)
    requires
        a < b < 0x1_0000_0000_0000_0000,
    ensures
        state_after(seed, a) != state_after(seed, b),
{
    lemma_state_is_weyl_sequence(seed, a);
    lemma_state_is_weyl_sequence(seed, b);
    let m: int = 0x1_0000_0000_0000_0000;
    let d: int = b - a;
    if state_after(seed, a) == state_after(seed, b) {
        let x: int = seed + b * GAMMA;
        let y: int = seed + a * GAMMA;
        assert(x - y == d * GAMMA) by (nonlinear_arith)
            requires
                x == seed + b * GAMMA,
                y == seed + a * GAMMA,
                d == b - a,
        ;
        vstd::arithmetic::div_mod::lemma_sub_mod_noop(x, y, m);
        assert((d * GAMMA) % m == 0);
        let du: u64 = d as u64;
        lemma_gamma_invertible(du);
        assert(du as int == d);
        assert((du * 0x9E37_79B9_7F4A_7C15u64) as u64 == 0);
        assert((0u64 * 0xF1DE_83E1_9937_733Du64) as u64 == 0u64) by (bit_vector);
    }
}

/// A SplitMix64 generator owned as a value.
pub struct SplitMix64 {
    state: u64,
}

impl SplitMix64 {
    pub closed spec fn state(self) -> u64 {
        self.state
    }

    pub fn new(seed: u64) -> (g: Self)
        ensures
            g.state() == seed,
    {
        Self { state: seed }
    }

    pub fn next_u64(&mut self) -> (r: u64)
        ensures
            final(self).state() == next_state_spec(old(self).state()),
            r == mix_spec(final(self).state()),
    {
        splitmix64(&mut self.state)
    }

    pub fn next_u32(&mut self) -> (r: u32)
        ensures
            final(self).state() == next_state_spec(old(self).state()),
            r == mix_spec(final(self).state()) as u32,
    {
        self.next_u64() as u32
    }
}

/// The generator used by the synthetic regimes: SplitMix64 plus helpers
/// that draw a 3-bit figure, a biased coin and byte strings.
pub struct DeterministicRng {
    state: u64,
}

impl DeterministicRng {
    pub closed spec fn state(self) -> u64 {
        self.state
    }

    pub fn new(seed: u64) -> (g: Self)
        ensures
            g.state() == seed,
    {
        Self { state: seed }
    }

    pub fn next_u64(&mut self) -> (r: u64)
        ensures
            final(self).state() == next_state_spec(old(self).state()),
            r == mix_spec(final(self).state()),
    {
        splitmix64(&mut self.state)
    }

    /// A 3-bit figure: the low three bits of the next output.
    pub fn next_state(&mut self) -> (r: u8)
        ensures
            final(self).state() == next_state_spec(old(self).state()),
            r == mix_spec(final(self).state()) % 8,
            r < 8,
    {
        let x = self.next_u64();
        proof { crate::bitfacts::lemma_u64_masks(x); }
        (x & 7) as u8
    }

    /// True with probability `threshold / 256`: the low byte of the next
    /// output is below `threshold`.
    pub fn chance_256(&mut self, threshold: u8) -> (r: bool)
        ensures
            final(self).state() == next_state_spec(old(self).state()),
            r == (mix_spec(final(self).state()) % 256 < threshold),
    {
        let x = self.next_u64();
        proof { crate::bitfacts::lemma_u64_masks(x); }
        (x & 0xff) < threshold as u64
    }

    /// Fills `bytes` with successive outputs, eight little-endian bytes each
    /// (the last output truncated to what is left).
    pub fn fill_bytes(&mut self, bytes: &mut Vec<u8>)
        ensures
            final(bytes)@.len() == old(bytes)@.len(),
            final(self).state() == state_after(old(self).state(),
                ((old(bytes)@.len() + 7) / 8) as nat),
            forall|i: int| 0 <= i < final(bytes)@.len() ==> #[trigger] final(bytes)@[i]
                == le_byte(output_at(old(self).state(), (i / 8) as nat), (i % 8) as nat),
    {
        let ghost seed = self.state;
        let len = bytes.len();
        let mut chunk: usize = 0;
        let mut i: usize = 0;
        while i < len
            invariant
                len == bytes@.len(),
                i <= len,
                chunk == (i + 7) / 8,
                i < len ==> i == 8 * chunk,
                self.state == state_after(seed, chunk as nat),
                forall|j: int| 0 <= j < i ==> #[trigger] bytes@[j]
                    == le_byte(output_at(seed, (j / 8) as nat), (j % 8) as nat),
            decreases len - i,
        {
            let value = self.next_u64();
            assert(value == output_at(seed, chunk as nat));
            let mut k: usize = 0;
            while k < 8 && i < len
                invariant
                    len == bytes@.len(),
                    k <= 8,
                    i == 8 * chunk + k,
                    i <= len,
                    value == output_at(seed, chunk as nat),
                    forall|j: int| 0 <= j < i ==> #[trigger] bytes@[j]
                        == le_byte(output_at(seed, (j / 8) as nat), (j % 8) as nat),
                decreases 8 - k,
            {
                let b = #[verifier::truncate] ((value >> (8 * k as u64)) as u8);
                bytes.set(i, b);
                assert(i / 8 == chunk && i % 8 == k) by (nonlinear_arith)
                    requires i == 8 * chunk + k, k < 8;
                i = i + 1;
                k = k + 1;
            }
            assert(chunk + 1 == (i + 7) / 8) by (nonlinear_arith)
                requires i == 8 * chunk + k, 1 <= k <= 8;
            chunk = chunk + 1;
            assert(i < len ==> k == 8);
        }
        assert(self.state == state_after(seed, ((len + 7) / 8) as nat));
    }
}

/// Byte `k` (little-endian) of `x`.
pub open spec fn le_byte(x: u64, k: nat) -> u8 {
    (x >> (8 * k)) as u8
}

} // verus!
