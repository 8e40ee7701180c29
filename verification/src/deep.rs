//! Deep navigation: folding a path of 3-bit figures into a 64-bit accumulator.
use vstd::prelude::*;
use crate::nonce::popcount8;
use crate::rng::mix_spec;
use crate::rng::next_state_spec;
use crate::rng::splitmix64;

verus! {

/// Rotates a 64-bit word left by `n` bits, `n < 64`.
pub open spec fn rotl64(x: u64, n: u64) -> u64 {
    if n == 0 {
        x
    } else {
        (x << n) | (x >> ((64 - n) as u64))
    }
}

fn rotate_left64(x: u64, n: u64) -> (r: u64)
    requires
        n < 64,
    ensures
        r == rotl64(x, n),
{
    if n == 0 {
        x
    } else {
        (x << n) | (x >> (64 - n))
    }
}

/// The accumulator after the figure `state` is met at `level`.
pub open spec fn interfere_spec(state: u8, accumulator: u64, level: u64) -> u64 {
    let s = state as u64;
    let layer = popcount8(state) as u64;
    rotl64(accumulator, (s + level) as u64 % 64).wrapping_add(
        s.wrapping_mul(0x9E37_79B9_7F4A_7C15).wrapping_add(layer << (level % 32)),
    ) ^ ((level + 1) as u64).wrapping_mul(0xD1B5_4A32_D192_ED03)
}

/// Mixes one figure into the accumulator.
pub fn interfere(state: u8, accumulator: u64, level: usize) -> (r: u64)
    requires
        level < u64::MAX,
        state + level <= u64::MAX,
    ensures
        r == interfere_spec(state, accumulator, level as u64),
{
    let s = state as u64;
    let layer = crate::nonce::hamming_weight(state) as u64;
    let lv = level as u64;
    let sl = s + lv;
    proof {
        crate::bitfacts::lemma_u64_masks(sl);
        crate::bitfacts::lemma_u64_masks(lv);
    }
    let rot = rotate_left64(accumulator, sl & 63);
    rot.wrapping_add(s.wrapping_mul(0x9E37_79B9_7F4A_7C15).wrapping_add(layer << (lv & 31)))
        ^ (lv + 1).wrapping_mul(0xD1B5_4A32_D192_ED03)
}

/// Initial accumulator.
pub const ACC_SEED: u64 = 0x1331_1331_1331_1331;

/// A figure of a 64-bit value, `level` counting 3-bit groups from the low end.
#[derive(Clone, Copy)]
pub struct X1331Node {
    pub state: u8,
}

impl X1331Node {
    pub fn from_bits(value: u64, level: usize) -> (n: Self)
        requires
            level * 3 < 64,
        ensures
            n.state == (value >> ((level * 3) as u64)) & 7,
    {
        let shift = (level * 3) as u64;
        proof {
            crate::bitfacts::lemma_u64_masks(value >> shift);
        }
        Self { state: ((value >> shift) & 7) as u8 }
    }

    /// Hamming weight of the figure.
    pub fn layer(self) -> (r: u8)
        ensures
            r == popcount8(self.state),
    {
        crate::nonce::hamming_weight(self.state) as u8
    }

    pub fn interfere(self, accumulator: u64, level: usize) -> (r: u64)
        requires
            level < u64::MAX,
            self.state + level <= u64::MAX,
        ensures
            r == interfere_spec(self.state, accumulator, level as u64),
    {
        interfere(self.state, accumulator, level)
    }
}

/// Accumulator after folding the first `depth` figures of `value`.
pub open spec fn navigate_spec(value: u64, depth: nat) -> u64
    decreases depth,
{
    if depth == 0 {
        ACC_SEED
    } else {
        let level = (depth - 1) as nat;
        interfere_spec(
            ((value >> ((level * 3) as u64)) & 7) as u8,
            navigate_spec(value, level),
            level as u64,
        )
    }
}

/// Folds the first `depth` figures of `value` into the accumulator.
pub fn navigate(value: u64, depth: usize) -> (r: u64)
    requires
        depth <= 22,
    ensures
        r == navigate_spec(value, depth as nat),
{
    let mut acc = ACC_SEED;
    let mut level: usize = 0;
    while level < depth
        invariant
            level <= depth <= 22,
            acc == navigate_spec(value, level as nat),
        decreases depth - level,
    {
        let node = X1331Node::from_bits(value, level);
        acc = node.interfere(acc, level);
        level = level + 1;
    }
    acc
}

/// State of a deep walk: generator state, unread bits of the current word,
/// how many of them are left, and the accumulator.
pub struct DeepWalk {
    pub rng: u64,
    pub word: u64,
    pub available_bits: u64,
    pub acc: u64,
}

/// The deep walk after `depth` levels from `seed`: figures are taken three
/// bits at a time from the low end of a generator word, a new word being
/// drawn (63 usable bits) whenever fewer than three bits remain.
pub open spec fn deep_walk(seed: u64, depth: nat) -> DeepWalk
    decreases depth,
{
    if depth == 0 {
        DeepWalk { rng: seed, word: 0, available_bits: 0, acc: ACC_SEED }
    } else {
        let level = (depth - 1) as nat;
        let w = deep_walk(seed, level);
        let (rng, word, avail) = if w.available_bits < 3 {
            (next_state_spec(w.rng), mix_spec(next_state_spec(w.rng)), 63u64)
        } else {
            (w.rng, w.word, w.available_bits)
        };
        DeepWalk {
            rng,
            word: word >> 3,
            available_bits: (avail - 3) as u64,
            acc: interfere_spec((word & 7) as u8, w.acc, level as u64),
        }
    }
}

/// Folds `depth` generator-drawn figures into the accumulator.
pub fn navigate_deep(seed: u64, depth: usize) -> (r: u64)
    requires
        depth + 8 <= u64::MAX,
    ensures
        r == deep_walk(seed, depth as nat).acc,
{
    let mut rng = seed;
    let mut word: u64 = 0;
    let mut available_bits: usize = 0;
    let mut acc = ACC_SEED;
    let mut level: usize = 0;
    while level < depth
        invariant
            level <= depth,
            depth + 8 <= u64::MAX,
            available_bits <= 63,
            deep_walk(seed, level as nat) == (DeepWalk {
                rng,
                word,
                available_bits: available_bits as u64,
                acc,
            }),
        decreases depth - level,
    {
        if available_bits < 3 {
            word = splitmix64(&mut rng);
            available_bits = 63;
        }
        proof {
            crate::bitfacts::lemma_u64_masks(word);
        }
        let state = (word & 0b111) as u8;
        word = word >> 3;
        available_bits = available_bits - 3;
        acc = interfere(state, acc, level);
        level = level + 1;
    }
    acc
}

/// Trials budgeted for each depth.
pub const TARGET_OPERATIONS: u64 = 120_000_000;
pub const MIN_TRIALS: u64 = 250_000;
pub const MAX_TRIALS: u64 = 5_000_000;

/// The number of trials for a depth: a fixed operation budget divided by
/// the depth, kept within `MIN_TRIALS..=MAX_TRIALS`.
pub fn trials_for_depth(depth: usize) -> (r: u64)
    requires
        depth > 0,
    ensures
        r == if TARGET_OPERATIONS / (depth as u64) < MIN_TRIALS {
            MIN_TRIALS
        } else if TARGET_OPERATIONS / (depth as u64) > MAX_TRIALS {
            MAX_TRIALS
        } else {
            TARGET_OPERATIONS / (depth as u64)
        },
{
    let desired = TARGET_OPERATIONS / depth as u64;
    if desired < MIN_TRIALS {
        MIN_TRIALS
    } else if desired > MAX_TRIALS {
        MAX_TRIALS
    } else {
        desired
    }
}

} // verus!
