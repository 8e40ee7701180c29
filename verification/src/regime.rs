//! Synthetic regimes: planted relations between 3-bit figures, used to
//! check that an observer finds structure where there is some and none
//! where there is none.
use vstd::prelude::*;
use crate::rng::DeterministicRng;
use crate::rng::mix_spec;
use crate::rng::next_state_spec;

verus! {

/// How strongly the outcome follows the planted relation.
#[derive(Debug, Clone, Copy, PartialEq, Eq, Structural)]
pub enum Regime {
    /// Always follows it.
    Strong,
    /// Follows it with probability 160/256, otherwise noise.
    Weak,
    /// Pure noise.
    Null,
}

pub const STRONG_SEED: u64 = 0x1331_09D0_0000_0001;
pub const WEAK_SEED: u64 = 0x1331_09D0_0000_0002;
pub const NULL_SEED: u64 = 0x1331_09D0_0000_0003;

/// Threshold out of 256 for the weak regime to follow the relation.
pub const WEAK_THRESHOLD: u8 = 160;

impl Regime {
    pub open spec fn name_spec(self) -> Seq<char> {
        match self {
            Regime::Strong => "STRONG"@,
            Regime::Weak => "WEAK"@,
            Regime::Null => "NULL"@,
        }
    }

    pub fn name(self) -> (r: &'static str)
        ensures
            r@ == self.name_spec(),
    {
        match self {
            Regime::Strong => "STRONG",
            Regime::Weak => "WEAK",
            Regime::Null => "NULL",
        }
    }

    /// The generator seed of the temporal experiment for this regime.
    pub fn seed(self) -> (r: u64)
        ensures
            r == match self {
                Regime::Strong => STRONG_SEED,
                Regime::Weak => WEAK_SEED,
                Regime::Null => NULL_SEED,
            },
    {
        match self {
            Regime::Strong => STRONG_SEED,
            Regime::Weak => WEAK_SEED,
            Regime::Null => NULL_SEED,
        }
    }
}

/// A tag that separates the regimes' streams in the memory experiment.
pub fn regime_tag(regime: Regime) -> (r: u64)
    ensures
        r == match regime {
            Regime::Strong => 0x11u64,
            Regime::Weak => 0x22u64,
            Regime::Null => 0x33u64,
        },
{
    match regime {
        Regime::Strong => 0x11,
        Regime::Weak => 0x22,
        Regime::Null => 0x33,
    }
}

/// The planted permutation of figures.
pub open spec fn strong_mapping_spec(context: u8) -> u8 {
    seq![0b011u8, 0b110u8, 0b001u8, 0b100u8, 0b111u8, 0b010u8, 0b101u8, 0b000u8][context as int]
}

/// The planted relation of the memory experiment: a fixed permutation.
pub fn strong_mapping(context: u8) -> (r: u8)
    requires
        context < 8,
    ensures
        r == strong_mapping_spec(context),
        r < 8,
{
    let map: [u8; 8] = [0b011, 0b110, 0b001, 0b100, 0b111, 0b010, 0b101, 0b000];
    assert(map@ =~= seq![0b011u8, 0b110u8, 0b001u8, 0b100u8, 0b111u8, 0b010u8, 0b101u8, 0b000u8]);
    map[context as usize]
}

/// Permutation law: the planted relation never sends two figures to the same figure.
pub proof fn lemma_strong_mapping_is_permutation(a: u8, b: u8)
    requires
        a < 8,
        b < 8,
        a != b,
    ensures
        strong_mapping_spec(a) != strong_mapping_spec(b),
        strong_mapping_spec(a) < 8,
{
}

/// State after a coin of `chance_256`, and whether it came up.
pub open spec fn coin_spec(state: u64, threshold: u8) -> bool {
    mix_spec(next_state_spec(state)) % 256 < threshold
}

/// The figure a generator draws from `state` (after advancing it).
pub open spec fn draw_spec(state: u64) -> u8 {
    (mix_spec(next_state_spec(state)) % 8) as u8
}

/// One outcome of the memory experiment for `context`.
pub fn generate_outcome(
    regime: Regime,
    context: u8,
    weak_rng: &mut DeterministicRng,
    null_rng: &mut DeterministicRng,
) -> (r: u8)
    requires
        context < 8,
    ensures
        r < 8,
        match regime {
            Regime::Strong => {
                &&& r == strong_mapping_spec(context)
                &&& final(weak_rng).state() == old(weak_rng).state()
                &&& final(null_rng).state() == old(null_rng).state()
            },
            Regime::Weak => {
                let s1 = next_state_spec(old(weak_rng).state());
                &&& final(null_rng).state() == old(null_rng).state()
                &&& if coin_spec(old(weak_rng).state(), WEAK_THRESHOLD) {
                    r == strong_mapping_spec(context) && final(weak_rng).state() == s1
                } else {
                    r == draw_spec(s1) && final(weak_rng).state() == next_state_spec(s1)
                }
            },
            Regime::Null => {
                &&& r == draw_spec(old(null_rng).state())
                &&& final(null_rng).state() == next_state_spec(old(null_rng).state())
                &&& final(weak_rng).state() == old(weak_rng).state()
            },
        },
{
    match regime {
        Regime::Strong => strong_mapping(context),
        Regime::Weak => {
            if weak_rng.chance_256(WEAK_THRESHOLD) {
                strong_mapping(context)
            } else {
                weak_rng.next_state()
            }
        },
        Regime::Null => null_rng.next_state(),
    }
}

/// The planted temporal relation: the XOR of the three previous figures,
/// rotated left by one bit.
pub open spec fn temporal_rule_spec(h0: u8, h1: u8, h2: u8) -> u8 {
    let mixed = h0 ^ h1 ^ h2;
    ((mixed << 1u8) | (mixed >> 2u8)) & 7
}

/// The next figure under the planted temporal relation.
pub fn temporal_rule(history: [u8; 3]) -> (r: u8)
    requires
        history@[0] < 8,
        history@[1] < 8,
        history@[2] < 8,
    ensures
        r == temporal_rule_spec(history@[0], history@[1], history@[2]),
        r < 8,
{
    let mixed = history[0] ^ history[1] ^ history[2];
    let rotated = ((mixed << 1) | (mixed >> 2)) & 0b111;
    proof {
        crate::bitfacts::lemma_u8_masks((mixed << 1u8) | (mixed >> 2u8));
    }
    rotated
}

/// The next figure of the temporal experiment drawn with a generator in
/// state `s0`, and the generator's state afterwards.
pub open spec fn next_figure_spec(regime: Regime, h0: u8, h1: u8, h2: u8, s0: u64) -> (u8, u64) {
    let planted = temporal_rule_spec(h0, h1, h2);
    let s1 = next_state_spec(s0);
    match regime {
        Regime::Strong => (planted, s0),
        Regime::Weak => if coin_spec(s0, WEAK_THRESHOLD) {
            (planted, s1)
        } else {
            (draw_spec(s1), next_state_spec(s1))
        },
        Regime::Null => (draw_spec(s0), s1),
    }
}

/// The next figure of the temporal experiment.
pub fn generate_next(regime: Regime, history: [u8; 3], rng: &mut DeterministicRng) -> (r: u8)
    requires
        history@[0] < 8,
        history@[1] < 8,
        history@[2] < 8,
    ensures
        r < 8,
        (r, final(rng).state()) == next_figure_spec(regime, history@[0], history@[1], history@[2],
            old(rng).state()),
{
    let deterministic = temporal_rule(history);
    match regime {
        Regime::Strong => deterministic,
        Regime::Weak => {
            if rng.chance_256(WEAK_THRESHOLD) {
                deterministic
            } else {
                rng.next_state()
            }
        },
        Regime::Null => rng.next_state(),
    }
}

/// The four figures of a frame packed MSB-first into 16 bits (the last four
/// bits are padding).
pub open spec fn frame_word(h0: u8, h1: u8, h2: u8, actual: u8) -> int {
    h0 * 0x2000 + h1 * 0x400 + h2 * 0x80 + actual * 0x10
}

/// Draws the next figure and returns the frame of the three history figures
/// and that figure, three bits each, MSB-first, padded to two bytes.
pub fn build_binary_frame(regime: Regime, history: [u8; 3], rng: &mut DeterministicRng) -> (r: Vec<
    u8,
>)
    requires
        history@[0] < 8,
        history@[1] < 8,
        history@[2] < 8,
    ensures
        ({
            let (actual, s) = next_figure_spec(regime, history@[0], history@[1], history@[2],
                old(rng).state());
            &&& final(rng).state() == s
            &&& r@.len() == 2
            &&& r@[0] * 256 + r@[1] == frame_word(history@[0], history@[1], history@[2], actual)
        }),
{
    let actual = generate_next(regime, history, rng);
    let h0 = history[0] as u16;
    let h1 = history[1] as u16;
    let h2 = history[2] as u16;
    let a = actual as u16;
    let word = (h0 << 13) | (h1 << 10) | (h2 << 7) | (a << 4);
    assert(word == h0 * 0x2000 + h1 * 0x400 + h2 * 0x80 + a * 0x10 && (word >> 8u16) * 256 + (word
        & 0xffu16) == word && (word >> 8u16) < 256 && (word & 0xffu16) < 256) by (bit_vector)
        requires
            h0 < 8,
            h1 < 8,
            h2 < 8,
            a < 8,
            word == (h0 << 13u16) | (h1 << 10u16) | (h2 << 7u16) | (a << 4u16),
    ;
    let mut frame: Vec<u8> = Vec::new();
    frame.push((word >> 8) as u8);
    frame.push((word & 0xff) as u8);
    frame
}

/// A verdict word.
pub fn pass_fail(value: bool) -> (r: &'static str)
    ensures
        r@ == (if value {
            "PASS"@
        } else {
            "FAIL"@
        }),
{
    if value {
        "PASS"
    } else {
        "FAIL"
    }
}

/// Frame law: a frame gives back its four figures, three bits each from
/// the top, with the last four bits zero.
pub proof fn lemma_frame_word_unpacks(h0: u8, h1: u8, h2: u8, actual: u8)
    requires
        h0 < 8,
        h1 < 8,
        h2 < 8,
        actual < 8,
    ensures
        frame_word(h0, h1, h2, actual) / 0x2000 == h0,
        (frame_word(h0, h1, h2, actual) / 0x400) % 8 == h1,
        (frame_word(h0, h1, h2, actual) / 0x80) % 8 == h2,
        (frame_word(h0, h1, h2, actual) / 0x10) % 8 == actual,
        frame_word(h0, h1, h2, actual) % 0x10 == 0,
{
    let w = frame_word(h0, h1, h2, actual);
    assert(w / 0x2000 == h0 && (w / 0x400) % 8 == h1 && (w / 0x80) % 8 == h2 && (w / 0x10) % 8 == actual
        && w % 0x10 == 0) by (nonlinear_arith)
        requires
            w == h0 * 0x2000 + h1 * 0x400 + h2 * 0x80 + actual * 0x10,
            0 <= h0 < 8,
            0 <= h1 < 8,
            0 <= h2 < 8,
            0 <= actual < 8,
    ;
}

} // verus!
