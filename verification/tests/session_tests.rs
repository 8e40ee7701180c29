use x1331::batch::Runtime;
use x1331::session::Difficulty;
use x1331::session::JsonItem;
use x1331::session::Session;
use x1331::session::SessionAction;
use x1331::session::SessionError;
use x1331::session::StratumMessage;
use x1331::stratum::HeaderError;

fn text(s: &str) -> JsonItem {
    JsonItem { text: Some(s.to_string()), number: None, flag: None, difficulty: None, texts: None }
}

fn number(n: u64) -> JsonItem {
    JsonItem { text: None, number: Some(n), flag: None, difficulty: Some(Difficulty::Integer(n)), texts: None }
}

fn flag(b: bool) -> JsonItem {
    JsonItem { text: None, number: None, flag: Some(b), difficulty: None, texts: None }
}

fn texts(v: &[&str]) -> JsonItem {
    JsonItem {
        text: None,
        number: None,
        flag: None,
        difficulty: None,
        texts: Some(v.iter().map(|s| Some(s.to_string())).collect()),
    }
}

fn empty() -> StratumMessage {
    StratumMessage { id: None, result_flag: None, result_items: None, error_code: None, method: None, params: None }
}

fn subscribe_reply(items: Vec<JsonItem>) -> StratumMessage {
    StratumMessage { id: Some(1), result_items: Some(items), ..empty() }
}

fn authorize_reply(ok: bool) -> StratumMessage {
    StratumMessage { id: Some(2), result_flag: Some(ok), ..empty() }
}

fn set_difficulty(d: JsonItem) -> StratumMessage {
    StratumMessage { method: Some("mining.set_difficulty".to_string()), params: Some(vec![d]), ..empty() }
}

fn notify_params() -> Vec<JsonItem> {
    let prevhash: String = (0u8..32).map(|x| format!("{:02x}", x)).collect();
    vec![
        text("job-7"),
        text(&prevhash),
        text("01000000"),
        text("ffffffff"),
        texts(&[&"11".repeat(32), &"22".repeat(32)]),
        text("20000000"),
        text("1d00ffff"),
        text("5f5e1000"),
        flag(true),
    ]
}

fn notify(params: Vec<JsonItem>) -> StratumMessage {
    StratumMessage { method: Some("mining.notify".to_string()), params: Some(params), ..empty() }
}

fn ready_session() -> (Session, Runtime) {
    let mut s = Session::new();
    let mut r = Runtime::new();
    let a = s.handle(&mut r, &subscribe_reply(vec![text("x"), text("abcd"), number(4)]), false);
    assert!(matches!(a, SessionAction::SendAuthorize));
    assert!(matches!(s.handle(&mut r, &authorize_reply(true), false), SessionAction::Authorized));
    assert!(matches!(s.handle(&mut r, &set_difficulty(number(1)), false), SessionAction::DifficultySet));
    (s, r)
}

#[test]
fn subscribe_then_authorize() {
    let (s, r) = ready_session();
    assert_eq!(s.extranonce1, "abcd");
    assert_eq!(s.extranonce2_size, 4);
    assert!(s.authorized);
    assert_eq!(s.difficulty, Some(Difficulty::Integer(1)));
    assert_eq!(r, Runtime::new());
}

#[test]
fn subscribe_errors() {
    let mut s = Session::new();
    let mut r = Runtime::new();
    let m = StratumMessage { id: Some(1), ..empty() };
    assert!(matches!(s.handle(&mut r, &m, false), SessionAction::Fail(SessionError::InvalidSubscribe)));
    let short = subscribe_reply(vec![text("x"), text("abcd")]);
    assert!(matches!(s.handle(&mut r, &short, false), SessionAction::Fail(SessionError::ShortSubscribe)));
    let short2 = subscribe_reply(vec![text("x"), text("abcd")]);
    assert!(matches!(s.handle(&mut r, &short2, true), SessionAction::Fail(SessionError::MissingExtranonce2Size)));
    let bad = subscribe_reply(vec![text("x"), number(3), number(4)]);
    assert!(matches!(s.handle(&mut r, &bad, false), SessionAction::Fail(SessionError::MissingExtranonce1)));
    assert_eq!(s.extranonce1, "");
}

#[test]
fn authorization_refused() {
    let mut s = Session::new();
    let mut r = Runtime::new();
    assert!(matches!(
        s.handle(&mut r, &authorize_reply(false), false),
        SessionAction::Fail(SessionError::AuthorizationFailed)
    ));
    let m = StratumMessage { id: Some(2), ..empty() };
    assert!(matches!(s.handle(&mut r, &m, false), SessionAction::Fail(SessionError::AuthorizationFailed)));
}

#[test]
fn share_replies_are_counted() {
    let mut s = Session::new();
    let mut r = Runtime::new();
    let ok = StratumMessage { id: Some(1001), result_flag: Some(true), ..empty() };
    assert!(matches!(s.handle(&mut r, &ok, false), SessionAction::ShareReply));
    let stale = StratumMessage { id: Some(1002), result_flag: Some(false), error_code: Some(21), ..empty() };
    assert!(matches!(s.handle(&mut r, &stale, true), SessionAction::ShareReply));
    let rejected = StratumMessage { id: Some(5000), error_code: Some(23), ..empty() };
    s.handle(&mut r, &rejected, false);
    assert_eq!((r.shares_accepted, r.shares_rejected, r.shares_stale), (1, 2, 1));
}

#[test]
fn difficulty_messages() {
    let mut s = Session::new();
    let mut r = Runtime::new();
    assert!(matches!(s.handle(&mut r, &set_difficulty(number(8)), false), SessionAction::DifficultySet));
    assert_eq!(s.difficulty, Some(Difficulty::Integer(8)));
    let not_number = set_difficulty(text("x"));
    assert!(matches!(s.handle(&mut r, &not_number, false), SessionAction::Ignore));
    assert_eq!(s.difficulty, Some(Difficulty::Integer(8)));
    assert!(matches!(s.handle(&mut r, &not_number, true), SessionAction::DifficultySet));
    assert_eq!(s.difficulty, None);
}

#[test]
fn notify_builds_the_job() {
    let (s, mut r) = ready_session();
    let mut s = s;
    match s.handle(&mut r, &notify(notify_params()), false) {
        SessionAction::NewJob(job) => {
            assert_eq!(job.job_id, "job-7");
            assert_eq!(job.extranonce2, "00000000");
            assert_eq!(job.ntime, "5f5e1000");
            assert!(job.clean_jobs);
            assert_eq!(job.nonce_cursor, 0);
            assert_eq!(job.target, x1331::pow::share_target_from_divisor(1));
            let hex: String = job.header.iter().map(|x| format!("{:02x}", x)).collect();
            assert_eq!(hex, "0000002003020100070605040b0a09080f0e0d0c13121110171615141b1a19181f1e1d1cbf405fed0d1dbf47c5b25c46a68871cde9ef8b6c6ef8bb0ecdc68477581c2a5e00105e5fffff001d00000000");
            assert_eq!(job.nonce_offset, x1331::stratum::job_offset("job-7", &job.header));
        }
        _ => panic!("expected a job"),
    }
}

#[test]
fn notify_waits_and_fails() {
    let mut s = Session::new();
    let mut r = Runtime::new();
    assert!(matches!(s.handle(&mut r, &notify(notify_params()), false), SessionAction::Ignore));
    s.handle(&mut r, &authorize_reply(true), false);
    assert!(matches!(s.handle(&mut r, &notify(notify_params()), false), SessionAction::AwaitDifficulty));
    s.handle(&mut r, &set_difficulty(JsonItem { difficulty: Some(Difficulty::Unsupported), ..text("x") }), false);
    assert!(matches!(s.handle(&mut r, &notify(notify_params()), false), SessionAction::UnsupportedDifficulty));
    s.handle(&mut r, &set_difficulty(number(2)), false);
    assert!(matches!(s.handle(&mut r, &notify(notify_params()), true), SessionAction::Ignore));
    let mut p = notify_params();
    p.truncate(8);
    assert!(matches!(s.handle(&mut r, &notify(p), false), SessionAction::Fail(SessionError::ShortNotify)));
    let mut p = notify_params();
    p[0] = number(3);
    assert!(matches!(s.handle(&mut r, &notify(p), false), SessionAction::Fail(SessionError::MissingJobId)));
    let mut p = notify_params();
    p[7] = flag(false);
    assert!(matches!(s.handle(&mut r, &notify(p), false), SessionAction::Fail(SessionError::MissingNtime)));
    let mut p = notify_params();
    p[4] = JsonItem { texts: Some(vec![None]), ..text("x") };
    assert!(matches!(s.handle(&mut r, &notify(p), false), SessionAction::Fail(SessionError::MalformedNotify)));
    let mut p = notify_params();
    p[5] = text("2000");
    assert!(matches!(
        s.handle(&mut r, &notify(p), false),
        SessionAction::Fail(SessionError::Header(HeaderError::FieldLength))
    ));
    let m = StratumMessage { method: Some("mining.notify".to_string()), ..empty() };
    assert!(matches!(s.handle(&mut r, &m, false), SessionAction::Fail(SessionError::MissingNotifyParams)));
    let other = StratumMessage { method: Some("client.reconnect".to_string()), ..empty() };
    assert!(matches!(s.handle(&mut r, &other, false), SessionAction::Ignore));
}
