use x1331::context::bit_msb;
use x1331::context::cell3;
use x1331::context::context_from_input;
use x1331::context::first_digest_figure;
use x1331::context::input_context;
use x1331::context::job_context;
use x1331::context::output_state;

fn genesis_header() -> [u8; 80] {
    let s = "0100000000000000000000000000000000000000000000000000000000000000000000003ba3edfd7a7b12b27ac72c3e67768f617fc81bc3888a51323a9fb8aa4b1e5e4a29ab5f49ffff001d1dac2b7c";
    let mut h = [0u8; 80];
    for i in 0..80 {
        h[i] = u8::from_str_radix(&s[2 * i..2 * i + 2], 16).unwrap();
    }
    h
}

fn genesis_digest() -> [u8; 32] {
    let s = "6fe28c0ab6f1b372c1a6a246ae63f74f931e8365e15a089c68d6190000000000";
    let mut h = [0u8; 32];
    for i in 0..32 {
        h[i] = u8::from_str_radix(&s[2 * i..2 * i + 2], 16).unwrap();
    }
    h
}

#[test]
fn bits_are_read_msb_first() {
    let b = [0b1000_0001u8, 0b0100_0000];
    assert_eq!(bit_msb(&b, 0), 1);
    assert_eq!(bit_msb(&b, 1), 0);
    assert_eq!(bit_msb(&b, 7), 1);
    assert_eq!(bit_msb(&b, 9), 1);
}

#[test]
fn cells_cross_byte_boundaries() {
    let b = [0b0000_0011u8, 0b1000_0000];
    assert_eq!(cell3(&b, 6), 7);
    assert_eq!(cell3(&b, 0), 0);
    assert_eq!(cell3(&b, 5), 3);
    assert_eq!(cell3(&[0b1010_0000u8], 0), 5);
}

#[test]
fn genesis_contexts() {
    let h = genesis_header();
    assert_eq!(job_context(&h), 1);
    assert_eq!(context_from_input(&h), [0, 0, 1]);
    assert_eq!(input_context(&h, 0), 0);
    assert_eq!(input_context(&h, 84), 320);
}

#[test]
fn digest_cells() {
    let d = genesis_digest();
    assert_eq!(output_state(&d, 0), 3);
    assert_eq!(output_state(&d, 1), 3);
    assert_eq!(output_state(&d, 2), 7);
    assert_eq!(output_state(&d, 84), 0);
    assert_eq!(first_digest_figure(&d), 3);
    assert_eq!(first_digest_figure(&[0xffu8; 32]), 7);
}
