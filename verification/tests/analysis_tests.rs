use x1331::analysis::bit_ones;
use x1331::analysis::hamming_groups;
use x1331::analysis::l1_transitions;
use x1331::analysis::l2_given_l1;
use x1331::analysis::level_counts;
use x1331::analysis::nonce_summary;
use x1331::analysis::repeated_nonces;
use x1331::analysis::PathSample;
use x1331::nonce::x1331_path;

fn sample(height: u64, nonce: u32) -> PathSample {
    PathSample { height, nonce, path: x1331_path(nonce) }
}

fn samples() -> Vec<PathSample> {
    vec![sample(1, 0xE000_0003), sample(2, 0x2000_0000), sample(3, 0xE400_0001), sample(4, 0x8000_0000)]
}

#[test]
fn figure_counts_by_level() {
    let s = samples();
    assert_eq!(level_counts(&s, 0), [0, 1, 0, 0, 1, 0, 0, 2]);
    assert_eq!(level_counts(&s, 1), [3, 1, 0, 0, 0, 0, 0, 0]);
    assert_eq!(level_counts(&s, 10), [2, 1, 0, 1, 0, 0, 0, 0]);
    assert_eq!(hamming_groups(&s, 0), [0, 2, 0, 2]);
}

#[test]
fn nonce_bits_and_range() {
    let s = samples();
    assert_eq!(bit_ones(&s, 31), 3);
    assert_eq!(bit_ones(&s, 0), 2);
    assert_eq!(nonce_summary(&s), (0x2000_0000, 0xE400_0001, 1));
}

#[test]
fn transitions_between_blocks() {
    let s = samples();
    let (m, same) = l1_transitions(&s);
    assert_eq!(m[7][1], 1);
    assert_eq!(m[1][7], 1);
    assert_eq!(m[7][4], 1);
    assert_eq!(m.iter().map(|r| r.iter().sum::<u64>()).sum::<u64>(), 3);
    assert_eq!(same, 0);
    let (m1, same1) = l1_transitions(&vec![sample(1, 5)]);
    assert_eq!(m1, [[0u64; 8]; 8]);
    assert_eq!(same1, 0);
    let (_, same2) = l1_transitions(&vec![sample(1, 5), sample(2, 6)]);
    assert_eq!(same2, 1);
}

#[test]
fn second_figure_given_first() {
    let m = l2_given_l1(&samples());
    assert_eq!(m[7][0], 1);
    assert_eq!(m[7][1], 1);
    assert_eq!(m[1][0], 1);
    assert_eq!(m[4][0], 1);
}

#[test]
fn repeated_nonces_most_frequent_first() {
    let s = vec![
        sample(1, 7),
        sample(2, 9),
        sample(3, 7),
        sample(4, 5),
        sample(5, 9),
        sample(6, 9),
        sample(7, 11),
    ];
    assert_eq!(repeated_nonces(&s), vec![(9, 3), (7, 2)]);
    assert_eq!(repeated_nonces(&samples()), vec![]);
}
