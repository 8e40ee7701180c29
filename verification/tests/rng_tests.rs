use x1331::rng::next_nonce;
use x1331::rng::splitmix64;
use x1331::rng::DeterministicRng;
use x1331::rng::SplitMix64;
use x1331::rng::GAMMA;

#[test]
fn splitmix_reference_values_from_zero() {
    let mut s: u64 = 0;
    assert_eq!(splitmix64(&mut s), 0xE220_A839_7B1D_CDAF);
    assert_eq!(s, GAMMA);
    assert_eq!(splitmix64(&mut s), 0x6E78_9E6A_A1B9_65F4);
    assert_eq!(splitmix64(&mut s), 0x06C4_5D18_8009_454F);
}

#[test]
fn state_is_weyl_sequence() {
    let seed: u64 = 0xDEAD_BEEF;
    let mut s = seed;
    for _ in 0..1000 {
        splitmix64(&mut s);
    }
    assert_eq!(s, seed.wrapping_add(GAMMA.wrapping_mul(1000)));
}

#[test]
fn next_nonce_is_low_word() {
    let mut s: u64 = 42;
    assert_eq!(next_nonce(&mut s), 0x2FEB_6E95);
}

#[test]
fn generators_agree_with_function() {
    let mut g = SplitMix64::new(0);
    assert_eq!(g.next_u64(), 0xE220_A839_7B1D_CDAF);
    assert_eq!(g.next_u32(), 0xA1B9_65F4);
    let mut d = DeterministicRng::new(0);
    assert_eq!(d.next_u64(), 0xE220_A839_7B1D_CDAF);
}

#[test]
fn deterministic_rng_helpers() {
    let mut d = DeterministicRng::new(42);
    assert_eq!(d.next_state(), 5);
    let mut c = DeterministicRng::new(42);
    assert!(!c.chance_256(149));
    let mut c2 = DeterministicRng::new(42);
    assert!(c2.chance_256(150));
    let mut z = DeterministicRng::new(42);
    assert!(!z.chance_256(0));
}

#[test]
fn fill_bytes_uses_little_endian_words() {
    let mut d = DeterministicRng::new(0);
    let mut bytes = vec![0u8; 10];
    d.fill_bytes(&mut bytes);
    let w0 = 0xE220_A839_7B1D_CDAFu64.to_le_bytes();
    let w1 = 0x6E78_9E6A_A1B9_65F4u64.to_le_bytes();
    assert_eq!(&bytes[..8], &w0[..]);
    assert_eq!(&bytes[8..], &w1[..2]);
    assert_eq!(d.next_u64(), 0x06C4_5D18_8009_454F);
    let mut empty: Vec<u8> = Vec::new();
    let mut e = DeterministicRng::new(7);
    e.fill_bytes(&mut empty);
    assert!(empty.is_empty());
}

#[test]
fn states_do_not_repeat() {
    let mut state = 0x1331_0000_0000_0001u64;
    let mut seen = std::collections::HashSet::new();
    for _ in 0..10_000 {
        splitmix64(&mut state);
        assert!(seen.insert(state));
    }
}
