use x1331::nonce::bit;
use x1331::nonce::bit7_is_one;
use x1331::nonce::force_l9_state;
use x1331::nonce::force_state;
use x1331::nonce::hamming_weight;
use x1331::nonce::job_nonce;
use x1331::nonce::l9_state;
use x1331::nonce::nonce_for;
use x1331::nonce::x1331_path;
use x1331::nonce::x1331_state;
use x1331::nonce::x1331_states;

fn recompose(p: &[u8]) -> u64 {
    let mut v: u64 = 0;
    for f in &p[..10] {
        v = v * 8 + *f as u64;
    }
    v * 4 + p[10] as u64
}

#[test]
fn path_recomposes_nonce() {
    for &n in &[0u32, 1, 0xffff_ffff, 0x1234_5678, 2_083_236_893] {
        let p = x1331_path(n);
        assert_eq!(p.len(), 11);
        assert_eq!(recompose(&p), n as u64);
        let s = x1331_states(n);
        assert_eq!(s.to_vec(), p);
    }
}

#[test]
fn path_figures_of_known_nonce() {
    let p = x1331_path(0xE000_0003);
    assert_eq!(p[0], 7);
    assert_eq!(p[1], 0);
    assert_eq!(p[10], 3);
    assert_eq!(x1331_state(0xE000_0003, 0), 7);
    assert_eq!(x1331_state(0x0000_001C, 9), 7);
}

#[test]
fn l9_read_and_force() {
    assert_eq!(l9_state(0b1010_0000), 5);
    let forced = force_l9_state(0xffff_ffff, 2);
    assert_eq!(l9_state(forced), 2);
    assert_eq!(forced | (7 << 5), 0xffff_ffff);
    assert_eq!(force_l9_state(0, 10), 2 << 5);
}

#[test]
fn force_state_spills_wide_values() {
    assert_eq!(force_state(0, 3), 3 << 5);
    assert_eq!(force_state(0xffff_ffff, 0), 0xffff_ff1f);
    assert_eq!(force_state(0, 9), 9 << 5);
}

#[test]
fn bits_of_nonce() {
    assert_eq!(bit(0x80, 7), 1);
    assert_eq!(bit(0x80, 6), 0);
    assert_eq!(bit(0x8000_0000, 31), 1);
    assert!(bit7_is_one(0x80));
    assert!(!bit7_is_one(0x7f));
}

#[test]
fn hamming_weight_counts_bits() {
    assert_eq!(hamming_weight(0), 0);
    assert_eq!(hamming_weight(7), 3);
    assert_eq!(hamming_weight(0xff), 8);
    assert_eq!(hamming_weight(0b1010_0101), 4);
}

#[test]
fn nonce_classes_by_low_bits() {
    assert_eq!(nonce_for(3, 0), 3);
    assert_eq!(nonce_for(5, 10), 85);
    assert_eq!(nonce_for(7, 0xffff_ffff), 0xffff_ffff);
    for s in 0..8usize {
        assert_eq!(nonce_for(s, 12345) % 8, s as u32);
    }
}

#[test]
fn job_nonce_is_odd_multiplier_walk() {
    assert_eq!(job_nonce(5, 0), 5);
    assert_eq!(job_nonce(0, 1), 0x9E37_79B1);
    assert_eq!(job_nonce(1, 2), 0x9E37_79B1u32.wrapping_mul(2).wrapping_add(1));
    assert_eq!(job_nonce(0, 1u64 << 32), 0);
}
