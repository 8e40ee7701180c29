use x1331::cell::PossibilityRegion;
use x1331::cell::X1331Cell;

#[test]
fn root_region_spans_whole_space() {
    let r = PossibilityRegion::root(32);
    assert_eq!(r.remaining_bits(), 32);
    assert_eq!(r.possibilities(), 1u64 << 32);
    assert_eq!(r.start(), 0);
    assert_eq!(r.end(), 0xffff_ffff);
    assert!(r.can_expand());
}

#[test]
fn small_region_cannot_expand() {
    let r = PossibilityRegion { prefix: 3, prefix_bits: 2, total_bits: 4 };
    assert_eq!(r.remaining_bits(), 2);
    assert!(!r.can_expand());
    assert_eq!(r.possibilities(), 4);
    assert_eq!(r.start(), 12);
    assert_eq!(r.end(), 15);
}

#[test]
fn expansion_children_tile_parent() {
    let parent = PossibilityRegion { prefix: 5, prefix_bits: 3, total_bits: 12 };
    let states = parent.expand_1331();
    assert_eq!(states.len(), 8);
    let width = parent.possibilities() / 8;
    for (v, s) in states.iter().enumerate() {
        assert_eq!(s.value as usize, v);
        assert_eq!(s.region.prefix, 5 * 8 + v as u64);
        assert_eq!(s.region.prefix_bits, 6);
        assert_eq!(s.region.total_bits, 12);
        assert_eq!(s.region.possibilities(), width);
        assert_eq!(s.region.start(), parent.start() + v as u64 * width);
    }
    assert_eq!(states[0].region.start(), parent.start());
    assert_eq!(states[7].region.end(), parent.end());
}

#[test]
fn expansion_bits_and_weights() {
    let states = PossibilityRegion::root(9).expand_1331();
    assert_eq!(states[5].bits, [1, 0, 1]);
    assert_eq!(states[5].weight, 2);
    assert_eq!(states[0].bits, [0, 0, 0]);
    assert_eq!(states[0].weight, 0);
    assert_eq!(states[7].bits, [1, 1, 1]);
    assert_eq!(states[7].weight, 3);
    assert_eq!(states[6].bits, [1, 1, 0]);
}

#[test]
fn cell_groups_are_one_three_three_one() {
    let cell = X1331Cell::from_region(PossibilityRegion::root(32));
    let g = cell.groups();
    assert_eq!(g[0].len(), 1);
    assert_eq!(g[1].len(), 3);
    assert_eq!(g[2].len(), 3);
    assert_eq!(g[3].len(), 1);
    let ones: Vec<u8> = g[1].iter().map(|s| s.value).collect();
    assert_eq!(ones, vec![1, 2, 4]);
    let twos: Vec<u8> = g[2].iter().map(|s| s.value).collect();
    assert_eq!(twos, vec![3, 5, 6]);
    assert_eq!(g[0][0].value, 0);
    assert_eq!(g[3][0].value, 7);
}

#[test]
fn cell_keeps_parent() {
    let parent = PossibilityRegion { prefix: 1, prefix_bits: 1, total_bits: 10 };
    let cell = X1331Cell::from_region(parent);
    assert_eq!(cell.parent.prefix, 1);
    assert_eq!(cell.states.len(), 8);
    assert_eq!(cell.states[3].region.prefix, 11);
}

#[test]
fn empty_space_has_one_value() {
    let r = PossibilityRegion { prefix: 0, prefix_bits: 0, total_bits: 0 };
    assert_eq!(r.possibilities(), 1);
    assert_eq!(r.start(), 0);
    assert_eq!(r.end(), 0);
    assert!(!r.can_expand());
}

#[test]
fn wide_region_expands() {
    let parent = PossibilityRegion { prefix: 5, prefix_bits: 10, total_bits: 70 };
    assert!(parent.can_expand());
    let states = parent.expand_1331();
    assert_eq!(states.len(), 8);
    assert_eq!(states[3].region.prefix, 43);
    assert_eq!(states[3].region.prefix_bits, 13);
    assert_eq!(states[3].region.total_bits, 70);
    let cell = X1331Cell::from_region(parent);
    assert_eq!(cell.states[7].region.prefix, 47);
}

#[test]
fn shifts_keep_low_bits() {
    let r = PossibilityRegion { prefix: (1u64 << 60) + 3, prefix_bits: 2, total_bits: 10 };
    assert_eq!(r.start(), 3 << 8);
    assert_eq!(r.end(), (3 << 8) + 255);
    let states = PossibilityRegion { prefix: u64::MAX, prefix_bits: 1, total_bits: 10 }.expand_1331();
    assert_eq!(states[5].region.prefix, 0xffff_ffff_ffff_fffd);
}
