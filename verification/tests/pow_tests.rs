use x1331::pow::bitcoin_pow_be;
use x1331::pow::compact_target;
use x1331::pow::deterministic_control_state;
use x1331::pow::hash_meets_share_target;
use x1331::pow::is_low_hash;
use x1331::pow::leading_zero_bits_pow;
use x1331::pow::meets_target;
use x1331::pow::pow_hash_less;
use x1331::pow::sha256d_header;
use x1331::pow::share_target_from_divisor;
use x1331::pow::verify_equal_budget;

fn hex_bytes(s: &str) -> Vec<u8> {
    (0..s.len() / 2).map(|i| u8::from_str_radix(&s[2 * i..2 * i + 2], 16).unwrap()).collect()
}

fn genesis_header() -> [u8; 80] {
    let v = hex_bytes("0100000000000000000000000000000000000000000000000000000000000000000000003ba3edfd7a7b12b27ac72c3e67768f617fc81bc3888a51323a9fb8aa4b1e5e4a29ab5f49ffff001d1dac2b7c");
    let mut h = [0u8; 80];
    h.copy_from_slice(&v);
    h
}

fn genesis_digest() -> [u8; 32] {
    let mut h = [0u8; 32];
    h.copy_from_slice(&hex_bytes(
        "6fe28c0ab6f1b372c1a6a246ae63f74f931e8365e15a089c68d6190000000000",
    ));
    h
}

fn diff1() -> [u8; 32] {
    let mut t = [0u8; 32];
    t[4] = 0xff;
    t[5] = 0xff;
    t
}

#[test]
fn genesis_header_hash() {
    let mut header = genesis_header();
    header[76..].copy_from_slice(&[0, 0, 0, 0]);
    assert_eq!(sha256d_header(&header, 2_083_236_893), genesis_digest());
}

#[test]
fn genesis_proof_of_work_number() {
    let raw = genesis_digest();
    let be = bitcoin_pow_be(&raw);
    assert_eq!(
        be.to_vec(),
        hex_bytes("000000000019d6689c085ae165831e934ff763ae46a2a6c172b3f1b60a8ce26f")
    );
    assert_eq!(leading_zero_bits_pow(&raw), 43);
    assert!(!is_low_hash(&raw));
    assert!(is_low_hash(&be));
}

#[test]
fn compact_target_difficulty_one() {
    assert_eq!(compact_target(0x1d00_ffff), diff1());
}

#[test]
fn compact_target_small_exponents() {
    let mut t = [0u8; 32];
    t[29] = 0x12;
    t[30] = 0x34;
    t[31] = 0x56;
    assert_eq!(compact_target(0x0312_3456), t);
    let mut t2 = [0u8; 32];
    t2[31] = 0x12;
    assert_eq!(compact_target(0x0112_3456), t2);
    let mut t3 = [0u8; 32];
    t3[30] = 0x12;
    t3[31] = 0x34;
    assert_eq!(compact_target(0x0212_3456), t3);
    assert_eq!(compact_target(0x0012_3456), [0u8; 32]);
}

#[test]
fn compact_target_sign_bit_and_overflow() {
    let mut t = [0u8; 32];
    t[29] = 0x7f;
    t[30] = 0xff;
    t[31] = 0xff;
    assert_eq!(compact_target(0x03ff_ffff), t);
    assert_eq!(compact_target(0x2100_ffff), [0u8; 32]);
    let mut top = [0u8; 32];
    top[0] = 0x12;
    top[1] = 0x34;
    top[2] = 0x56;
    assert_eq!(compact_target(0x2012_3456), top);
}

#[test]
fn genesis_meets_its_target() {
    let raw = genesis_digest();
    assert!(meets_target(&raw, &compact_target(0x1d00_ffff)));
    assert!(!meets_target(&raw, &compact_target(0x1a00_ffff)));
    assert!(hash_meets_share_target(&raw, &diff1()));
    assert!(!hash_meets_share_target(&raw, &[0u8; 32]));
}

#[test]
fn share_target_of_divisors() {
    assert_eq!(share_target_from_divisor(1), diff1());
    let mut half = [0u8; 32];
    half[4] = 0x7f;
    half[5] = 0xff;
    half[6] = 0x80;
    assert_eq!(share_target_from_divisor(2), half);
    let mut t = [0u8; 32];
    t[5] = 0xff;
    t[6] = 0xff;
    assert_eq!(share_target_from_divisor(256), t);
}

#[test]
fn share_target_equivalence_on_values() {
    let target = share_target_from_divisor(3);
    let mut ok = [0u8; 32];
    ok[4] = 0x55;
    ok[5] = 0x55;
    let mut raw = ok;
    raw.reverse();
    assert!(hash_meets_share_target(&raw, &target));
    assert!(meets_target(&raw, &target));
    let mut bad = [0u8; 32];
    bad[4] = 0x55;
    bad[5] = 0x56;
    bad.reverse();
    assert!(!hash_meets_share_target(&bad, &target));
}

#[test]
fn pow_comparison_is_little_endian() {
    let mut a = [0u8; 32];
    let mut b = [0u8; 32];
    a[31] = 1;
    b[0] = 0xff;
    assert!(pow_hash_less(&b, &a));
    assert!(!pow_hash_less(&a, &b));
    assert!(!pow_hash_less(&a, &a));
}

#[test]
fn control_state_from_job_id() {
    assert_eq!(deterministic_control_state("job1"), 4);
    assert_eq!(deterministic_control_state("abc"), 2);
}

#[test]
fn equal_budget_on_genesis_template() {
    let mut target = [0xffu8; 32];
    target[0] = 0x02;
    let r = verify_equal_budget(&genesis_header(), &target);
    assert_eq!(r.state_lz8, [0, 0, 0, 1, 1, 0, 0, 0]);
    assert_eq!(r.state_target_hits, [0, 0, 2, 1, 1, 1, 0, 0]);
    assert_eq!(r.state_best_nonces, [456, 313, 426, 395, 236, 485, 454, 159]);
    assert_eq!(r.best_state, 3);
    assert_eq!(r.best_nonce, 395);
    let mut best = [0u8; 32];
    best.copy_from_slice(&hex_bytes(
        "71012596235f8772909760dc8f9685cc92953ad3700d509b80b7a413a3633800",
    ));
    assert_eq!(r.best_hash, best);
    for s in 0..8 {
        assert_eq!(r.state_best_nonces[s] % 8, s as u32);
        assert_eq!(sha256d_header(&genesis_header(), r.state_best_nonces[s]), r.state_best_hashes[s]);
    }
}

#[test]
fn share_target_self_test_values() {
    assert_eq!(share_target_from_divisor(1), diff1());
    let t = share_target_from_divisor(131_072);
    let mut expected = [0u8; 32];
    expected[6] = 0x7f;
    expected[7] = 0xff;
    expected[8] = 0x80;
    assert_eq!(t, expected);
}
