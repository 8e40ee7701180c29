use x1331::batch::begin_batch;
use x1331::batch::claim_submit_id;
use x1331::batch::hash_candidate;
use x1331::batch::note_submitted;
use x1331::batch::plan_chunk;
use x1331::batch::random_control;
use x1331::batch::record_audit;
use x1331::batch::record_learn;
use x1331::batch::AuditOutcome;
use x1331::batch::BatchError;
use x1331::batch::ChunkPlan;
use x1331::batch::LiveJob;
use x1331::batch::RegionScan;
use x1331::batch::Runtime;
use x1331::batch::BLIND_POOL;
use x1331::batch::KEEP;
use x1331::batch::RANDOM_SEED;
use x1331::pow::share_target_from_divisor;
use x1331::score::Experience;
use x1331::score::Score;

fn genesis_header() -> [u8; 80] {
    let s = "0100000000000000000000000000000000000000000000000000000000000000000000003ba3edfd7a7b12b27ac72c3e67768f617fc81bc3888a51323a9fb8aa4b1e5e4a29ab5f49ffff001d1dac2b7c";
    let mut h = [0u8; 80];
    for i in 0..80 {
        h[i] = u8::from_str_radix(&s[2 * i..2 * i + 2], 16).unwrap();
    }
    h
}

fn job(cursor: u64) -> LiveJob {
    LiveJob {
        job_id: "j1".to_string(),
        header: genesis_header(),
        extranonce2: "00000000".to_string(),
        ntime: "495fab29".to_string(),
        clean_jobs: true,
        target: share_target_from_divisor(1),
        nonce_cursor: cursor,
        nonce_offset: 5,
    }
}

#[test]
fn fresh_runtime_defaults() {
    let r = Runtime::new();
    assert_eq!(r.submit_id, 1000);
    assert_eq!(r.random_rng, RANDOM_SEED);
    assert_eq!(r.sequence, 0);
    assert_eq!(r.top, Score::default());
}

#[test]
fn batches_draw_distinct_nonces() {
    let mut r = Runtime::new();
    let mut j = job(0);
    let (audit, nonces) = begin_batch(&mut r, &mut j).unwrap();
    assert!(!audit);
    assert_eq!(r.sequence, 1);
    assert_eq!(nonces.len(), BLIND_POOL);
    assert_eq!(&nonces[..3], &[5, 0x9e37_79b6, 0x3c6e_f367]);
    assert_eq!(j.nonce_cursor, BLIND_POOL as u64);
    let mut sorted = nonces.clone();
    sorted.sort();
    sorted.dedup();
    assert_eq!(sorted.len(), BLIND_POOL);
}

#[test]
fn every_tenth_batch_is_an_audit() {
    let mut r = Runtime::new();
    r.sequence = 9;
    let mut j = job(0);
    let (audit, _) = begin_batch(&mut r, &mut j).unwrap();
    assert!(audit);
    assert_eq!(r.sequence, 10);
}

#[test]
fn nonce_space_exhaustion() {
    let mut r = Runtime::new();
    let mut j = job((1u64 << 32) - BLIND_POOL as u64 + 1);
    assert_eq!(begin_batch(&mut r, &mut j).err(), Some(BatchError::NonceSpaceExhausted));
    assert_eq!(r.sequence, 1);
    assert_eq!(j.nonce_cursor, (1u64 << 32) - BLIND_POOL as u64 + 1);
    let mut last = job((1u64 << 32) - BLIND_POOL as u64);
    assert!(begin_batch(&mut r, &mut last).is_ok());
    assert_eq!(last.nonce_cursor, 1u64 << 32);
}

#[test]
fn random_control_from_seed() {
    let mut r = Runtime::new();
    let idx = random_control(&mut r);
    assert_eq!(idx.len(), KEEP);
    assert_eq!(&idx[..5], &[6224, 2308, 4787, 2870, 4742]);
    assert_eq!(idx[KEEP - 1], 2670);
    assert_eq!(r.random_rng, 0xf117_e62f_089d_5402);
    let mut sorted = idx.clone();
    sorted.sort();
    sorted.dedup();
    assert_eq!(sorted.len(), KEEP);
    assert!(idx.iter().all(|&i| (KEEP..BLIND_POOL - KEEP).contains(&i)));
}

#[test]
fn hashing_a_candidate_counts_shares() {
    let mut r = Runtime::new();
    let j = job(0);
    let (e, share) = hash_candidate(&mut r, &j, 2_083_236_893);
    assert!(share);
    assert_eq!(e, Experience { nonce: 2_083_236_893, lz: 1, success: false });
    assert_eq!(r.total_live_hashes, 1);
    assert_eq!(r.shares_found, 1);
    let (e, share) = hash_candidate(&mut r, &j, 310);
    assert!(!share);
    assert_eq!(e, Experience { nonce: 310, lz: 8, success: true });
    assert_eq!(r.total_live_hashes, 2);
    assert_eq!(r.shares_found, 1);
}

fn exp(lz: u32) -> Experience {
    Experience { nonce: lz, lz, success: lz >= 8 }
}

#[test]
fn audits_tally_wins_losses_ties() {
    let mut r = Runtime::new();
    let (ts, rs, o) = record_audit(&mut r, &vec![exp(9), exp(2)], &vec![exp(1)]);
    assert_eq!(o, AuditOutcome::Win);
    assert_eq!(ts, Score { hashes: 2, successes: 1, lz_sum: 11, best_sum: 9 });
    assert_eq!(rs, Score { hashes: 1, successes: 0, lz_sum: 1, best_sum: 1 });
    let (_, _, o) = record_audit(&mut r, &vec![exp(1)], &vec![exp(8)]);
    assert_eq!(o, AuditOutcome::Loss);
    let (_, _, o) = record_audit(&mut r, &vec![], &vec![]);
    assert_eq!(o, AuditOutcome::Tie);
    assert_eq!((r.wins, r.losses, r.ties, r.audit_batches), (1, 1, 1, 3));
    assert_eq!(r.top, Score { hashes: 3, successes: 1, lz_sum: 12, best_sum: 10 });
    assert_eq!(r.random, Score { hashes: 2, successes: 1, lz_sum: 9, best_sum: 9 });
}

#[test]
fn learning_batches_count_samples() {
    let mut r = Runtime::new();
    let (positives, best) = record_learn(&mut r, &vec![exp(9), exp(2)], &vec![exp(12), exp(0)]);
    assert_eq!((positives, best), (2, 12));
    assert_eq!((r.learn_batches, r.learn_samples), (1, 4));
}

#[test]
fn submissions_take_increasing_ids() {
    let mut r = Runtime::new();
    assert_eq!(claim_submit_id(&mut r), 1001);
    assert_eq!(claim_submit_id(&mut r), 1002);
    note_submitted(&mut r);
    assert_eq!(r.shares_submitted, 1);
}

#[test]
fn region_scan_chunks() {
    let mut s = RegionScan { region_order: [3, 0, 1, 2, 4, 5, 6, 7], region_index: 0, region_cursor: 0 };
    assert_eq!(plan_chunk(&mut s), ChunkPlan::Scan { start: 3 * 0x2000_0000, count: 65_536 });
    assert_eq!(s.region_cursor, 65_536);
    s.region_cursor = 0x2000_0000 - 10;
    assert_eq!(plan_chunk(&mut s), ChunkPlan::Scan { start: 3 * 0x2000_0000 + 0x2000_0000 - 10, count: 10 });
    assert_eq!(plan_chunk(&mut s), ChunkPlan::NextRegion);
    assert_eq!((s.region_index, s.region_cursor), (1, 0));
    s.region_index = 7;
    s.region_cursor = 0x2000_0000;
    assert_eq!(plan_chunk(&mut s), ChunkPlan::Exhausted);
}
