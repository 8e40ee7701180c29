use x1331::memory::bucket_for;
use x1331::memory::hash_bucket;
use x1331::memory::BucketModel;
use x1331::memory::DeepMem;
use x1331::memory::Model;
use x1331::memory::OnlineMem;
use x1331::memory::ReplayError;
use x1331::memory::COUNT_LEN;
use x1331::memory::record_job;
use x1331::memory::digest_bucket;
use x1331::memory::RuntimeStats;
use x1331::memory::replay_stats;
use x1331::memory::JournalEvent;
use x1331::memory::CollapseMetrics;

fn genesis_header() -> [u8; 80] {
    let s = "0100000000000000000000000000000000000000000000000000000000000000000000003ba3edfd7a7b12b27ac72c3e67768f617fc81bc3888a51323a9fb8aa4b1e5e4a29ab5f49ffff001d1dac2b7c";
    let mut h = [0u8; 80];
    for i in 0..80 {
        h[i] = u8::from_str_radix(&s[2 * i..2 * i + 2], 16).unwrap();
    }
    h
}

#[test]
fn count_indices_are_distinct_and_in_range() {
    assert_eq!(DeepMem::count_index(0, 0, 0), 0);
    assert_eq!(DeepMem::count_index(0, 0, 7), 7);
    assert_eq!(DeepMem::count_index(0, 1, 0), 8);
    assert_eq!(DeepMem::count_index(1, 0, 0), 4096);
    assert_eq!(DeepMem::count_index(84, 511, 7), COUNT_LEN - 1);
    assert_eq!(DeepMem::total_index(2, 3), 1027);
}

#[test]
fn deep_memory_observes() {
    let mut m = DeepMem::new();
    m.observe(3, 100, 5);
    m.observe(3, 100, 5);
    m.observe(3, 100, 1);
    assert_eq!(m.counts[DeepMem::count_index(3, 100, 5)], 2);
    assert_eq!(m.counts[DeepMem::count_index(3, 100, 1)], 1);
    assert_eq!(m.totals[DeepMem::total_index(3, 100)], 3);
    assert_eq!(m.counts.iter().map(|&c| c as u64).sum::<u64>(), 3);
}

#[test]
fn deep_memory_saturates() {
    let mut m = DeepMem::new();
    let i = DeepMem::count_index(0, 0, 0);
    m.counts[i] = u32::MAX;
    m.observe(0, 0, 0);
    assert_eq!(m.counts[i], u32::MAX);
    assert_eq!(m.totals[0], 1);
}

#[test]
fn online_memory_replay() {
    let mut m = OnlineMem::new();
    assert_eq!(m.replay_event(7, 3, 0), Ok(true));
    assert_eq!(m.replay_event(7, 3, 0), Ok(false));
    assert_eq!(m.replay_event(7, 2, 2), Ok(true));
    assert_eq!(m.counts[7 * 8 + 3], 2);
    assert_eq!(m.totals[7], 3);
    assert_eq!(m.replay_event(512, 0, 0), Err(ReplayError::OutOfRange));
    assert_eq!(m.replay_event(0, 8, 0), Err(ReplayError::OutOfRange));
    assert_eq!(m.totals[0], 0);
    m.observe(1, 1);
    assert_eq!(m.counts[9], 1);
}

#[test]
fn bucket_model_updates() {
    let mut m = BucketModel::new();
    assert_eq!(m.counts.len(), 4096);
    m.update(4095, 7);
    m.update(4095, 7);
    m.update(0, 1);
    assert_eq!(m.counts[4095][7], 2);
    assert_eq!(m.totals[4095], 2);
    assert_eq!(m.counts[0], [0, 1, 0, 0, 0, 0, 0, 0]);
}

#[test]
fn model_names() {
    assert_eq!(Model::Prior.name(), "PRIOR");
    assert_eq!(Model::VersionMerkle.name(), "VERSION+MERKLE");
    assert_eq!(Model::All.name(), "ALL");
}

#[test]
fn fingerprint_buckets() {
    assert_eq!(hash_bucket(&Vec::new()), 227);
    let h = genesis_header();
    assert_eq!(bucket_for(Model::Prior, &h), 0);
    assert_eq!(bucket_for(Model::Version, &h), 2919);
    assert_eq!(bucket_for(Model::All, &h), 2549);
    assert_eq!(bucket_for(Model::VersionMerkle, &h), 1683);
    assert_eq!(bucket_for(Model::Version, &h), hash_bucket(&h[0..4].to_vec()));
    let mut other = h;
    other[79] ^= 0xff;
    assert_eq!(bucket_for(Model::All, &other), bucket_for(Model::All, &h));
}

#[test]
fn job_tallies() {
    let mut s = RuntimeStats::new();
    record_job(&mut s, true, true, 512, 1, 0, 2, 3);
    record_job(&mut s, true, false, 512, 0, 1, 0, 0);
    record_job(&mut s, false, true, 100, 0, 0, 0, 0);
    assert_eq!(s.jobs, 3);
    assert_eq!(s.sha256d, 1124);
    assert_eq!((s.mature_predictions, s.correct_predictions, s.errors, s.passes), (2, 1, 1, 1));
    assert_eq!((s.lz8_x1331, s.lz8_control, s.pool_target_x1331, s.pool_target_control), (1, 1, 2, 3));
}

#[test]
fn journal_replay_defaults() {
    let mut s = RuntimeStats::new();
    let e = JournalEvent {
        collapse: None,
        correct: Some(true),
        sha_budget: None,
        predicted_state: Some(2),
        control_state: None,
        state_lz8: Some(vec![Some(5), None, Some(7)]),
        state_target_hits: None,
    };
    assert!(replay_stats(&mut s, &e));
    assert_eq!(s.jobs, 1);
    assert_eq!(s.sha256d, 512);
    assert_eq!(s.passes, 1);
    assert_eq!(s.mature_predictions, 0);
    assert_eq!(s.lz8_x1331, 7);
    assert_eq!(s.lz8_control, 5);
    assert_eq!(s.pool_target_x1331, 0);
    let e2 = JournalEvent {
        collapse: Some(true),
        correct: None,
        sha_budget: Some(8),
        predicted_state: Some(9),
        control_state: Some(1),
        state_lz8: Some(vec![Some(5), None]),
        state_target_hits: Some(vec![Some(1), Some(4)]),
    };
    assert!(replay_stats(&mut s, &e2));
    assert_eq!(s.sha256d, 520);
    assert_eq!(s.errors, 1);
    assert_eq!(s.lz8_x1331, 7);
    assert_eq!(s.lz8_control, 5);
    assert_eq!(s.pool_target_control, 4);
    let before = s;
    let e3 = JournalEvent {
        collapse: None,
        correct: None,
        sha_budget: Some(u64::MAX),
        predicted_state: None,
        control_state: None,
        state_lz8: None,
        state_target_hits: None,
    };
    assert!(!replay_stats(&mut s, &e3));
    assert_eq!(s, before);
}

#[test]
fn collapse_metrics_count_decisions() {
    let mut m = CollapseMetrics::new();
    m.observe(&vec![0, 1, 2, 3, 4, 5, 6, 7], 3);
    m.observe(&vec![2, 5], 3);
    m.observe(&vec![6], 6);
    m.observe(&vec![1, 2, 3, 4], 0);
    assert_eq!((m.evaluated, m.pass, m.k4, m.k2, m.k1), (4, 1, 1, 1, 1));
    assert_eq!(m.retained_actual, 2);
    assert_eq!(m.k_sum, 15);
}

#[test]
fn totals_match_state_counts() {
    let mut m = OnlineMem::new();
    let events = [(3usize, 1usize), (3, 1), (3, 7), (500, 0), (3, 0)];
    for (c, s) in events {
        m.observe(c, s);
    }
    for c in 0..512usize {
        let row: u64 = m.counts[c * 8..c * 8 + 8].iter().sum();
        assert_eq!(row, m.totals[c]);
    }
    assert_eq!(m.totals.iter().sum::<u64>(), events.len() as u64);
}

#[test]
fn digest_bucket_reads_first_eight_bytes() {
    let mut d = [0u8; 32];
    d[0] = 0x01;
    d[1] = 0x10;
    d[8] = 0xff;
    assert_eq!(digest_bucket(&d), 1);
    d[1] = 0x0f;
    assert_eq!(digest_bucket(&d), 0x0f01);
    let mut e = [0u8; 32];
    e[7] = 0x80;
    e[0] = 0x05;
    assert_eq!(digest_bucket(&e), 5);
}
