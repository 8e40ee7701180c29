use x1331::score::add_score;
use x1331::score::eval_indices;
use x1331::score::observe_candidate;
use x1331::score::score_experience;
use x1331::score::Experience;
use x1331::score::Score;
use x1331::score::eval_arm;
use x1331::score::aggregate_counts;
use x1331::score::update_lz_counts;
use x1331::score::LzCounts;

fn genesis_header() -> [u8; 80] {
    let s = "0100000000000000000000000000000000000000000000000000000000000000000000003ba3edfd7a7b12b27ac72c3e67768f617fc81bc3888a51323a9fb8aa4b1e5e4a29ab5f49ffff001d1dac2b7c";
    let mut h = [0u8; 80];
    for i in 0..80 {
        h[i] = u8::from_str_radix(&s[2 * i..2 * i + 2], 16).unwrap();
    }
    h
}

#[test]
fn scores_add_field_by_field() {
    let mut a = Score { hashes: 1, successes: 2, lz_sum: 3, best_sum: 4 };
    let b = Score { hashes: 10, successes: 20, lz_sum: 30, best_sum: 40 };
    add_score(&mut a, &b);
    assert_eq!(a, Score { hashes: 11, successes: 22, lz_sum: 33, best_sum: 44 });
    assert_eq!(Score::default(), Score { hashes: 0, successes: 0, lz_sum: 0, best_sum: 0 });
}

#[test]
fn experience_updates_score() {
    let mut s = Score::default();
    score_experience(&mut s, &Experience { nonce: 1, lz: 9, success: true });
    score_experience(&mut s, &Experience { nonce: 2, lz: 3, success: false });
    assert_eq!(s, Score { hashes: 2, successes: 1, lz_sum: 12, best_sum: 9 });
}

#[test]
fn candidates_observed_on_genesis() {
    let h = genesis_header();
    let e = observe_candidate(&h, 310);
    assert_eq!(e, Experience { nonce: 310, lz: 8, success: true });
    let e = observe_candidate(&h, 1);
    assert_eq!(e, Experience { nonce: 1, lz: 3, success: false });
}

#[test]
fn indices_evaluated_in_order() {
    let h = genesis_header();
    let nonces = vec![2_083_236_893u32, 0, 1, 310];
    let s = eval_indices(&h, &nonces, &vec![0, 0, 2, 3]);
    assert_eq!(s, Score { hashes: 4, successes: 1, lz_sum: 13, best_sum: 8 });
    assert_eq!(eval_indices(&h, &nonces, &Vec::new()), Score::default());
}

#[test]
fn arms_accumulate_best_per_batch() {
    let h = genesis_header();
    let nonces = vec![2_083_236_893u32, 0, 1, 310];
    let mut s = Score { hashes: 10, successes: 1, lz_sum: 5, best_sum: 4 };
    let successes = eval_arm(&h, &nonces, &vec![3, 2], &mut s);
    assert_eq!(successes, 1);
    assert_eq!(s, Score { hashes: 12, successes: 2, lz_sum: 16, best_sum: 12 });
}

#[test]
fn zero_bit_counts() {
    let mut c = LzCounts { n: 0, lz4: 0, lz8: 0, lz12: 0, lz16: 0, leading_zero_sum: 0 };
    let mut h = [0xffu8; 32];
    h[0] = 0;
    h[1] = 0x0f;
    update_lz_counts(&mut c, &h);
    update_lz_counts(&mut c, &[0u8; 32]);
    assert_eq!(c, LzCounts { n: 2, lz4: 2, lz8: 2, lz12: 2, lz16: 1, leading_zero_sum: 268 });
    let mut states = [LzCounts { n: 0, lz4: 0, lz8: 0, lz12: 0, lz16: 0, leading_zero_sum: 0 }; 8];
    states[0] = c;
    states[7] = c;
    assert_eq!(
        aggregate_counts(&states),
        LzCounts { n: 4, lz4: 4, lz8: 4, lz12: 4, lz16: 2, leading_zero_sum: 536 }
    );
}
