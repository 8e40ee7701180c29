use x1331::pow::share_target_from_divisor;
use x1331::region_miner::chunk_shares;
use x1331::region_miner::claim_submission;
use x1331::region_miner::record_chunk;
use x1331::region_miner::record_reply;
use x1331::region_miner::ScanAction;
use x1331::region_miner::ScanError;
use x1331::region_miner::ScanRuntime;
use x1331::region_miner::ScanSession;
use x1331::session::Difficulty;
use x1331::session::JsonItem;
use x1331::session::SessionError;
use x1331::session::StratumMessage;
use x1331::stratum::build_header_with_extranonce2;
use x1331::stratum::NotifyParams;

fn text(s: &str) -> JsonItem {
    JsonItem { text: Some(s.to_string()), number: None, flag: None, difficulty: None, texts: None }
}

fn number(n: u64) -> JsonItem {
    JsonItem { text: None, number: Some(n), flag: None, difficulty: Some(Difficulty::Integer(n)), texts: None }
}

fn flag(b: bool) -> JsonItem {
    JsonItem { text: None, number: None, flag: Some(b), difficulty: None, texts: None }
}

fn texts(v: &[&str]) -> JsonItem {
    JsonItem { text: None, number: None, flag: None, difficulty: None, texts: Some(v.iter().map(|s| Some(s.to_string())).collect()) }
}

fn empty() -> StratumMessage {
    StratumMessage { id: None, result_flag: None, result_items: None, error_code: None, method: None, params: None }
}

fn method(name: &str, params: Vec<JsonItem>) -> StratumMessage {
    StratumMessage { method: Some(name.to_string()), params: Some(params), ..empty() }
}

fn prevhash() -> String {
    (0u8..32).map(|x| format!("{:02x}", x)).collect()
}

fn job_params() -> Vec<JsonItem> {
    vec![
        text("job-3"),
        text(&prevhash()),
        text("01000000"),
        text("ffffffff"),
        texts(&[&"22".repeat(32)]),
        text("20000000"),
        text("1d00ffff"),
        text("5f5e1000"),
        flag(true),
    ]
}

fn notify_params() -> NotifyParams {
    NotifyParams {
        prevhash: prevhash(),
        coinb1: "01000000".to_string(),
        coinb2: "ffffffff".to_string(),
        merkle_branches: vec!["22".repeat(32)],
        version: "20000000".to_string(),
        nbits: "1d00ffff".to_string(),
        ntime: "5f5e1000".to_string(),
    }
}

fn ready(size: u64) -> (ScanSession, ScanRuntime) {
    let mut s = ScanSession::new();
    let mut r = ScanRuntime::new();
    let sub = StratumMessage { id: Some(1), result_items: Some(vec![text("x"), text("abcd"), number(size)]), ..empty() };
    assert!(matches!(s.handle(&mut r, &sub), ScanAction::SendAuthorize));
    let auth = StratumMessage { id: Some(2), result_flag: Some(true), ..empty() };
    assert!(matches!(s.handle(&mut r, &auth), ScanAction::Authorized));
    (s, r)
}

#[test]
fn region_runtime_starts_fresh() {
    let r = ScanRuntime::new();
    assert_eq!(r.submit_id, 1000);
    assert_eq!((r.jobs, r.total_hashes, r.extranonce2_counter), (0, 0, 0));
}

#[test]
fn region_session_mines_a_job() {
    let (mut s, mut r) = ready(4);
    assert!(matches!(s.handle(&mut r, &method("mining.notify", job_params())), ScanAction::AwaitDifficulty));
    assert!(matches!(s.handle(&mut r, &method("mining.set_difficulty", vec![number(2)])), ScanAction::DifficultySet));
    assert_eq!(s.difficulty, Some(Difficulty::Integer(2)));
    let (t, job) = match s.handle(&mut r, &method("mining.notify", job_params())) {
        ScanAction::NewJob(t, job) => (t, job),
        _ => panic!("expected a job"),
    };
    assert_eq!(r.jobs, 1);
    assert_eq!(r.extranonce2_counter, 1);
    assert_eq!(job.extranonce2, "00000001");
    assert_eq!(job.header, build_header_with_extranonce2("abcd", "00000001", &notify_params()).unwrap());
    assert_eq!(job.target, share_target_from_divisor(2));
    assert_eq!(job.job_id, "job-3");
    assert_eq!(job.ntime, "5f5e1000");
    assert!(job.clean_jobs);
    let next = s.next_job(&mut r, &t).unwrap();
    assert_eq!(r.extranonce2_counter, 2);
    assert_eq!(next.extranonce2, "00000002");
    assert_ne!(next.header, job.header);
    assert_eq!(r.jobs, 1);
}

#[test]
fn region_session_extranonce_and_errors() {
    let (mut s, mut r) = ready(4);
    assert!(matches!(s.handle(&mut r, &method("mining.set_extranonce", vec![text("beef"), number(2)])), ScanAction::ExtranonceSet));
    assert_eq!(s.extranonce1, "beef");
    assert_eq!(s.extranonce2_size, 2);
    assert!(matches!(s.handle(&mut r, &method("mining.set_extranonce", vec![text("beef")])), ScanAction::Ignore));
    assert!(matches!(
        s.handle(&mut r, &method("mining.set_extranonce", vec![number(1), number(2)])),
        ScanAction::Fail(ScanError::SetExtranonce1)
    ));
    let mut s2 = ScanSession::new();
    s2.authorized = true;
    s2.extranonce1 = "ab".to_string();
    s2.extranonce2_size = 9;
    s2.difficulty = Some(Difficulty::Integer(1));
    let mut r2 = ScanRuntime::new();
    assert!(matches!(
        s2.handle(&mut r2, &method("mining.notify", job_params())),
        ScanAction::Fail(ScanError::Extranonce2Size { size: 9 })
    ));
    assert_eq!(r2.extranonce2_counter, 1);
    assert_eq!(r2.jobs, 0);
    s2.extranonce2_size = 4;
    s2.difficulty = Some(Difficulty::Unsupported);
    assert!(matches!(s2.handle(&mut r2, &method("mining.notify", job_params())), ScanAction::Fail(ScanError::UnsupportedDifficulty)));
    let mut short = job_params();
    short.truncate(8);
    assert!(matches!(
        s2.handle(&mut r2, &method("mining.notify", short)),
        ScanAction::Fail(ScanError::Session(SessionError::ShortNotify))
    ));
    let mut bad = job_params();
    bad[7] = number(1);
    assert!(matches!(
        s2.handle(&mut r2, &method("mining.notify", bad)),
        ScanAction::Fail(ScanError::Session(SessionError::MissingNtime))
    ));
}

#[test]
fn region_chunk_shares() {
    let header = [7u8; 80];
    assert_eq!(chunk_shares(&header, &[0xff; 32], 5, 3), vec![5, 6, 7]);
    assert_eq!(chunk_shares(&header, &[0xff; 32], 0xFFFF_FFFF, 2), vec![0xFFFF_FFFF, 0]);
    assert_eq!(chunk_shares(&header, &[0u8; 32], 0, 64), Vec::<u32>::new());
    assert_eq!(chunk_shares(&header, &[0xff; 32], 9, 0), Vec::<u32>::new());
}

#[test]
fn region_counters() {
    let mut r = ScanRuntime::new();
    record_chunk(&mut r, 65_536, 2);
    assert_eq!((r.total_hashes, r.session_hashes, r.shares_found, r.work_units), (65_536, 65_536, 2, 1));
    assert_eq!(claim_submission(&mut r), 1001);
    assert_eq!((r.submit_id, r.shares_submitted), (1001, 1));
    assert!(record_reply(&mut r, Some(true), None));
    assert!(!record_reply(&mut r, Some(false), Some(21)));
    assert!(!record_reply(&mut r, None, Some(23)));
    assert_eq!((r.shares_accepted, r.shares_rejected, r.shares_stale), (1, 2, 1));
}
