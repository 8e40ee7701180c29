use x1331::regime::build_binary_frame;
use x1331::regime::generate_next;
use x1331::regime::generate_outcome;
use x1331::regime::pass_fail;
use x1331::regime::regime_tag;
use x1331::regime::strong_mapping;
use x1331::regime::temporal_rule;
use x1331::regime::Regime;
use x1331::rng::DeterministicRng;

#[test]
fn regime_names_seeds_and_tags() {
    assert_eq!(Regime::Strong.name(), "STRONG");
    assert_eq!(Regime::Weak.name(), "WEAK");
    assert_eq!(Regime::Null.name(), "NULL");
    assert_eq!(Regime::Strong.seed(), 0x1331_09D0_0000_0001);
    assert_eq!(Regime::Null.seed(), 0x1331_09D0_0000_0003);
    assert_eq!(regime_tag(Regime::Weak), 0x22);
    assert_eq!(pass_fail(true), "PASS");
    assert_eq!(pass_fail(false), "FAIL");
}

#[test]
fn strong_mapping_is_a_permutation() {
    let mut seen = [false; 8];
    for c in 0..8u8 {
        let m = strong_mapping(c);
        assert!(!seen[m as usize]);
        seen[m as usize] = true;
    }
    assert_eq!(strong_mapping(0), 0b011);
    assert_eq!(strong_mapping(7), 0b000);
}

#[test]
fn temporal_rule_rotates_xor() {
    assert_eq!(temporal_rule([1, 2, 4]), 7);
    assert_eq!(temporal_rule([0, 0, 0]), 0);
    assert_eq!(temporal_rule([5, 0, 0]), 3);
    assert_eq!(temporal_rule([3, 0, 0]), 6);
}

#[test]
fn outcomes_by_regime() {
    let mut weak = DeterministicRng::new(Regime::Weak.seed());
    let mut null = DeterministicRng::new(Regime::Null.seed());
    assert_eq!(generate_outcome(Regime::Strong, 2, &mut weak, &mut null), 0b001);
    assert_eq!(generate_outcome(Regime::Null, 2, &mut weak, &mut null), 7);
    let mut weak2 = DeterministicRng::new(Regime::Weak.seed());
    let mut null2 = DeterministicRng::new(Regime::Null.seed());
    assert_eq!(generate_outcome(Regime::Weak, 4, &mut weak2, &mut null2), 0b111);
    assert_eq!(null2.next_u64(), DeterministicRng::new(Regime::Null.seed()).next_u64());
}

#[test]
fn next_figure_by_regime() {
    let mut rng = DeterministicRng::new(Regime::Strong.seed());
    assert_eq!(generate_next(Regime::Strong, [1, 2, 4], &mut rng), 7);
    let mut rng = DeterministicRng::new(Regime::Weak.seed());
    assert_eq!(generate_next(Regime::Weak, [3, 0, 0], &mut rng), 6);
    let mut rng = DeterministicRng::new(Regime::Null.seed());
    assert_eq!(generate_next(Regime::Null, [3, 0, 0], &mut rng), 7);
}

#[test]
fn frame_packs_four_figures() {
    let mut rng = DeterministicRng::new(0);
    let f = build_binary_frame(Regime::Strong, [1, 2, 4], &mut rng);
    let word: u16 = (1 << 13) | (2 << 10) | (4 << 7) | (7 << 4);
    assert_eq!(f, vec![(word >> 8) as u8, (word & 0xff) as u8]);
    let mut rng = DeterministicRng::new(Regime::Null.seed());
    let g = build_binary_frame(Regime::Null, [7, 7, 7], &mut rng);
    assert_eq!(g, vec![0xff, 0xf0]);
}

#[test]
fn frames_unpack_to_their_figures() {
    for seed in 0..20u64 {
        let history = [(seed % 8) as u8, ((seed / 2) % 8) as u8, ((seed * 3) % 8) as u8];
        let mut rng = DeterministicRng::new(seed);
        let f = build_binary_frame(Regime::Null, history, &mut rng);
        let w = (f[0] as u16) << 8 | f[1] as u16;
        assert_eq!((w >> 13) as u8, history[0]);
        assert_eq!(((w >> 10) & 7) as u8, history[1]);
        assert_eq!(((w >> 7) & 7) as u8, history[2]);
        assert_eq!(w & 0xf, 0);
        let mut again = DeterministicRng::new(seed);
        assert_eq!(((w >> 4) & 7) as u8, generate_next(Regime::Null, history, &mut again));
    }
}
