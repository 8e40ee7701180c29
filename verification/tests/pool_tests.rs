use x1331::pool::PoolAction;
use x1331::pool::PoolSession;
use x1331::session::Difficulty;
use x1331::session::JsonItem;
use x1331::session::SessionError;
use x1331::session::StratumMessage;
use x1331::stratum::build_header;
use x1331::stratum::HeaderError;
use x1331::stratum::NotifyParams;

fn text(s: &str) -> JsonItem {
    JsonItem { text: Some(s.to_string()), number: None, flag: None, difficulty: None, texts: None }
}

fn number(n: u64) -> JsonItem {
    JsonItem { text: None, number: Some(n), flag: None, difficulty: Some(Difficulty::Integer(n)), texts: None }
}

fn flag(b: bool) -> JsonItem {
    JsonItem { text: None, number: None, flag: Some(b), difficulty: None, texts: None }
}

fn texts(v: &[&str]) -> JsonItem {
    JsonItem {
        text: None,
        number: None,
        flag: None,
        difficulty: None,
        texts: Some(v.iter().map(|s| Some(s.to_string())).collect()),
    }
}

fn empty() -> StratumMessage {
    StratumMessage { id: None, result_flag: None, result_items: None, error_code: None, method: None, params: None }
}

fn prevhash() -> String {
    (0u8..32).map(|x| format!("{:02x}", x)).collect()
}

fn job_params() -> Vec<JsonItem> {
    vec![
        text("job-9"),
        text(&prevhash()),
        text("01000000"),
        text("ffffffff"),
        texts(&[&"11".repeat(32)]),
        text("20000000"),
        text("1d00ffff"),
        text("5f5e1000"),
        flag(false),
    ]
}

fn notify(params: Vec<JsonItem>) -> StratumMessage {
    StratumMessage { method: Some("mining.notify".to_string()), params: Some(params), ..empty() }
}

fn ready() -> PoolSession {
    let mut s = PoolSession::new();
    let sub = StratumMessage { id: Some(1), result_items: Some(vec![text("x"), text("abcd"), number(4)]), ..empty() };
    assert!(matches!(s.handle(&sub), PoolAction::SendAuthorize));
    assert!(matches!(s.handle(&StratumMessage { id: Some(2), result_flag: Some(true), ..empty() }), PoolAction::Authorized));
    s
}

#[test]
fn pool_session_subscribes_and_authorizes() {
    let s = ready();
    assert_eq!(s.extranonce1, "abcd");
    assert_eq!(s.extranonce2_size, 4);
    assert!(s.authorized);
    let mut t = PoolSession::new();
    let short = StratumMessage { id: Some(1), result_items: Some(vec![text("x"), text("abcd")]), ..empty() };
    assert!(matches!(t.handle(&short), PoolAction::Fail(SessionError::ShortSubscribe)));
    let refused = StratumMessage { id: Some(2), result_flag: Some(false), ..empty() };
    assert!(matches!(t.handle(&refused), PoolAction::Fail(SessionError::AuthorizationFailed)));
    assert!(!t.authorized);
}

#[test]
fn pool_session_gates_jobs() {
    let mut fresh = PoolSession::new();
    assert!(matches!(fresh.handle(&notify(job_params())), PoolAction::NotAuthorized));
    fresh.authorized = true;
    assert!(matches!(fresh.handle(&notify(job_params())), PoolAction::NotSubscribed));
    let mut s = ready();
    let d = StratumMessage { method: Some("mining.set_difficulty".to_string()), params: Some(vec![number(8)]), ..empty() };
    assert!(matches!(s.handle(&d), PoolAction::Difficulty));
    let other = StratumMessage { method: Some("client.show_message".to_string()), ..empty() };
    assert!(matches!(s.handle(&other), PoolAction::Ignore));
}

#[test]
fn pool_session_builds_the_job_header() {
    let mut s = ready();
    let job = match s.handle(&notify(job_params())) {
        PoolAction::Job(job) => job,
        _ => panic!("expected a job"),
    };
    let np = NotifyParams {
        prevhash: prevhash(),
        coinb1: "01000000".to_string(),
        coinb2: "ffffffff".to_string(),
        merkle_branches: vec!["11".repeat(32)],
        version: "20000000".to_string(),
        nbits: "1d00ffff".to_string(),
        ntime: "5f5e1000".to_string(),
    };
    let (header, _) = build_header("abcd", 4, &np).unwrap();
    assert_eq!(job.header, header);
    assert_eq!(job.job_id, "job-9");
    assert!(!job.clean_jobs);
    assert_eq!(job.bits, 0x1d00ffff);
    assert_eq!(&job.header[76..80], &[0, 0, 0, 0]);
}

#[test]
fn pool_session_job_errors() {
    let mut s = ready();
    let mut p = job_params();
    p.truncate(8);
    assert!(matches!(s.handle(&notify(p)), PoolAction::Fail(SessionError::ShortNotify)));
    let mut p = job_params();
    p[0] = flag(true);
    assert!(matches!(s.handle(&notify(p)), PoolAction::Fail(SessionError::MissingJobId)));
    let mut p = job_params();
    p[6] = number(3);
    assert!(matches!(s.handle(&notify(p)), PoolAction::Fail(SessionError::MalformedNotify)));
    let mut p = job_params();
    p[2] = text("zz");
    assert!(matches!(s.handle(&notify(p)), PoolAction::Fail(SessionError::Header(HeaderError::Hex))));
    let no_params = StratumMessage { method: Some("mining.notify".to_string()), ..empty() };
    assert!(matches!(s.handle(&no_params), PoolAction::Fail(SessionError::MissingNotifyParams)));
}
