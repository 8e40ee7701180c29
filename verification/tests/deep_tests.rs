use x1331::deep::interfere;
use x1331::deep::navigate;
use x1331::deep::navigate_deep;
use x1331::deep::trials_for_depth;
use x1331::deep::X1331Node;
use x1331::deep::ACC_SEED;

#[test]
fn interfere_reference_values() {
    assert_eq!(interfere(5, 0, 0), 0xc6a0_2aad_ade6_8168);
    assert_eq!(interfere(3, ACC_SEED, 7), 0x1359_60ef_cebb_5193);
    let n = X1331Node { state: 3 };
    assert_eq!(n.interfere(ACC_SEED, 7), 0x1359_60ef_cebb_5193);
    assert_eq!(n.layer(), 2);
}

#[test]
fn nodes_read_low_groups_first() {
    assert_eq!(X1331Node::from_bits(0o7654321, 0).state, 1);
    assert_eq!(X1331Node::from_bits(0o7654321, 6).state, 7);
    assert_eq!(X1331Node::from_bits(u64::MAX, 21).state, 1);
}

#[test]
fn navigation_folds_figures() {
    assert_eq!(navigate(0, 0), ACC_SEED);
    assert_eq!(navigate(0x0123_4567_89ab_cdef, 5), 0x7dab_8e96_a59d_38a1);
    assert_eq!(navigate(u64::MAX, 21), 0xbee2_e012_7e2a_d239);
}

#[test]
fn deep_navigation_draws_words() {
    assert_eq!(navigate_deep(0, 0), ACC_SEED);
    assert_eq!(navigate_deep(0, 1), 0x3db8_a6ae_c200_101c);
    assert_eq!(navigate_deep(7, 30), 0x5532_efe3_4c0c_8901);
}

#[test]
fn trials_are_clamped() {
    assert_eq!(trials_for_depth(1), 5_000_000);
    assert_eq!(trials_for_depth(24), 5_000_000);
    assert_eq!(trials_for_depth(100), 1_200_000);
    assert_eq!(trials_for_depth(480), 250_000);
    assert_eq!(trials_for_depth(1000), 250_000);
}
