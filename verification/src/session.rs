//! The live miner's Stratum V1 session: what each message of the pool
//! changes, and what the miner does next.
use vstd::prelude::*;
use vstd::utf8::encode_utf8;
use crate::batch::LiveJob;
use crate::batch::Runtime;
use crate::bignum::be_value;
use crate::pow::diff1_target_spec;
use crate::pow::share_target_from_divisor;
use crate::stratum::build_header;
use crate::stratum::header_mix;
use crate::stratum::header_spec;
use crate::stratum::hex_encode_spec;
use crate::stratum::job_id_mix;
use crate::stratum::job_offset;
use crate::stratum::HeaderError;
use crate::stratum::NotifyParams;
use crate::stratum::NotifyView;

verus! {

/// A number sent as a pool difficulty.
#[derive(Debug, Clone, Copy, PartialEq, Eq, Structural)]
pub enum Difficulty {
    /// A whole difficulty, the divisor of the difficulty-1 target.
    Integer(u64),
    /// A difficulty with no supported share target (fractional, below one,
    /// or not finite).
    Unsupported,
}

/// A JSON value of a message, by the readings the session makes of it.
pub struct JsonItem {
    /// The value as a string, if it is one.
    pub text: Option<String>,
    /// The value as an unsigned integer, if it is one.
    pub number: Option<u64>,
    /// The value as a boolean, if it is one.
    pub flag: Option<bool>,
    /// The value as a pool difficulty, if it is a number.
    pub difficulty: Option<Difficulty>,
    /// The value as an array, each element as a string if it is one.
    pub texts: Option<Vec<Option<String>>>,
}

/// A message from the pool: its `id`, `result`, `error`, `method` and `params`.
pub struct StratumMessage {
    /// `id` as an unsigned integer.
    pub id: Option<u64>,
    /// `result` as a boolean.
    pub result_flag: Option<bool>,
    /// `result` as an array.
    pub result_items: Option<Vec<JsonItem>>,
    /// The first element of the `error` array, as an integer.
    pub error_code: Option<i64>,
    /// `method` as a string.
    pub method: Option<String>,
    /// `params` as an array.
    pub params: Option<Vec<JsonItem>>,
}

/// What the session has learnt from the pool.
pub struct Session {
    pub extranonce1: String,
    pub extranonce2_size: usize,
    pub authorized: bool,
    pub difficulty: Option<Difficulty>,
}

/// Why the session ends.
#[derive(Debug, Clone, Copy, PartialEq, Eq, Structural)]
pub enum SessionError {
    /// The subscription reply has no result array.
    InvalidSubscribe,
    /// The subscription result has fewer than three elements.
    ShortSubscribe,
    MissingExtranonce1,
    MissingExtranonce2Size,
    AuthorizationFailed,
    /// A job announcement without a params array.
    MissingNotifyParams,
    /// A job announcement with fewer than nine params.
    ShortNotify,
    MissingJobId,
    MissingNtime,
    /// A job field that should be a string (or an array of strings) is not.
    MalformedNotify,
    /// The job's header could not be built.
    Header(HeaderError),
}

/// What the miner does after a message.
pub enum SessionAction {
    /// A reply to a submitted share was counted.
    ShareReply,
    /// Subscribed: send the authorization.
    SendAuthorize,
    Authorized,
    /// The difficulty was recorded (or, while idle, cleared).
    DifficultySet,
    /// A job came before any difficulty; it is not mined.
    AwaitDifficulty,
    /// The difficulty has no supported share target; the job is not mined.
    UnsupportedDifficulty,
    /// Mine this job from now on.
    NewJob(LiveJob),
    /// Nothing to do.
    Ignore,
    /// The session ends.
    Fail(SessionError),
}

/// A reply to a submitted share: its id is above the ids of the session's own requests.
pub open spec fn is_share_reply(m: StratumMessage) -> bool {
    m.id matches Some(id) && id >= 1001
}

/// The counters after a share reply: accepted when `result` is true,
/// otherwise rejected, and stale when the error code is 21.
pub open spec fn count_share_reply(r: Runtime, m: StratumMessage) -> Runtime {
    if m.result_flag == Some(true) {
        Runtime { shares_accepted: (r.shares_accepted + 1) as u64, ..r }
    } else {
        Runtime {
            shares_rejected: (r.shares_rejected + 1) as u64,
            shares_stale: (r.shares_stale + if m.error_code == Some(21i64) { 1int } else { 0int }) as u64,
            ..r
        }
    }
}

/// Extranonce1 and the extranonce2 size read from a subscription reply.
/// While idle the reply is read element by element, without the length check.
pub open spec fn subscribe_fields(m: StratumMessage, idle: bool) -> Result<(Seq<char>, u64), SessionError> {
    match m.result_items {
        None => Err(SessionError::InvalidSubscribe),
        Some(v) => {
            let it = v@;
            if !idle && it.len() < 3 {
                Err(SessionError::ShortSubscribe)
            } else if it.len() < 2 || it[1].text is None {
                Err(SessionError::MissingExtranonce1)
            } else if it.len() < 3 || it[2].number is None {
                Err(SessionError::MissingExtranonce2Size)
            } else {
                Ok((it[1].text->Some_0@, it[2].number->Some_0))
            }
        },
    }
}

/// Whether the message's method is `name`.
pub open spec fn is_method(m: StratumMessage, name: Seq<char>) -> bool {
    m.method matches Some(s) && s@ == name
}

/// The difficulty carried by the first parameter, if it is a number.
pub open spec fn first_difficulty(m: StratumMessage) -> Option<Difficulty> {
    match m.params {
        Some(p) => if p@.len() > 0 {
            p@[0].difficulty
        } else {
            None
        },
        None => None,
    }
}

/// The job fields of a `mining.notify`: params 1 to 7 as strings, param 4
/// as an array of strings.
pub open spec fn notify_view_of(p: Seq<JsonItem>) -> Option<NotifyView> {
    if p[1].text is Some && p[2].text is Some && p[3].text is Some && p[4].texts is Some && (forall|i: int|
        0 <= i < p[4].texts->Some_0@.len() ==> (#[trigger] p[4].texts->Some_0@[i]) is Some) && p[5].text is Some
        && p[6].text is Some && p[7].text is Some {
        Some(
            NotifyView {
                prevhash: p[1].text->Some_0@,
                coinb1: p[2].text->Some_0@,
                coinb2: p[3].text->Some_0@,
                merkle_branches: p[4].texts->Some_0@.map_values(|b: Option<String>| b->Some_0@),
                version: p[5].text->Some_0@,
                nbits: p[6].text->Some_0@,
                ntime: p[7].text->Some_0@,
            },
        )
    } else {
        None
    }
}

/// The all-zero extranonce2 of `n` bytes.
pub open spec fn zero_extranonce2(n: usize) -> Seq<u8> {
    Seq::new(n as nat, |i: int| 0u8)
}

/// Why a `mining.notify` with params `p` cannot be mined, checked in the
/// order the fields are read; `None` when a job can be built.
pub open spec fn notify_error(s: Session, p: Option<Seq<JsonItem>>) -> Option<SessionError> {
    match p {
        None => Some(SessionError::MissingNotifyParams),
        Some(p) => if p.len() < 9 {
            Some(SessionError::ShortNotify)
        } else if p[0].text is None {
            Some(SessionError::MissingJobId)
        } else if p[7].text is None {
            Some(SessionError::MissingNtime)
        } else {
            match notify_view_of(p) {
                None => Some(SessionError::MalformedNotify),
                Some(v) => match header_spec(s.extranonce1@, Some(zero_extranonce2(s.extranonce2_size)), v) {
                    Err(e) => Some(SessionError::Header(e)),
                    Ok(_) => None,
                },
            }
        },
    }
}

/// `job` is the job announced by params `p` at difficulty `d`.
pub open spec fn announced_job(s: Session, d: u64, p: Seq<JsonItem>, job: LiveJob) -> bool {
    let v = notify_view_of(p)->Some_0;
    let z = zero_extranonce2(s.extranonce2_size);
    &&& header_spec(s.extranonce1@, Some(z), v) == Ok::<Seq<u8>, HeaderError>(job.header@)
    &&& job.extranonce2@ == hex_encode_spec(z)
    &&& job.job_id@ == p[0].text->Some_0@
    &&& job.ntime@ == p[7].text->Some_0@
    &&& job.clean_jobs == (p[8].flag == Some(true))
    &&& be_value(job.target@) == be_value(diff1_target_spec()) / (d as nat)
    &&& job.nonce_cursor == 0
    &&& job.nonce_offset == header_mix(
        job_id_mix(encode_utf8(job.job_id@), encode_utf8(job.job_id@).len()),
        job.header@,
        16,
    )
}

/// The params of a message as a sequence.
pub open spec fn params_of(m: StratumMessage) -> Option<Seq<JsonItem>> {
    match m.params {
        Some(p) => Some(p@),
        None => None,
    }
}

/// What a `mining.notify` leads to in session `s` (the action's job aside).
pub open spec fn notify_action_ok(s: Session, m: StratumMessage, a: SessionAction) -> bool {
    if !s.authorized {
        a is Ignore
    } else {
        match s.difficulty {
            None => a is AwaitDifficulty,
            Some(Difficulty::Unsupported) => a is UnsupportedDifficulty,
            Some(Difficulty::Integer(d)) => if d == 0 {
                a is UnsupportedDifficulty
            } else {
                match notify_error(s, params_of(m)) {
                    Some(e) => a == SessionAction::Fail(e),
                    None => a matches SessionAction::NewJob(job) && announced_job(s, d, params_of(m)->Some_0, job),
                }
            },
        }
    }
}

pub(crate) fn copy_text(t: &Option<String>) -> (r: Option<String>)
    ensures
        r == *t,
{
    match t {
        Some(s) => Some(s.clone()),
        None => None,
    }
}

/// The job fields of a `mining.notify`, as `notify_view_of` reads them.
pub(crate) fn notify_params(p: &Vec<JsonItem>) -> (r: Option<NotifyParams>)
    requires
        p@.len() >= 9,
    ensures
        match notify_view_of(p@) {
            None => r is None,
            Some(v) => r matches Some(np) && np@ == v,
        },
{
    let prevhash = copy_text(&p[1].text);
    let coinb1 = copy_text(&p[2].text);
    let coinb2 = copy_text(&p[3].text);
    let version = copy_text(&p[5].text);
    let nbits = copy_text(&p[6].text);
    let ntime = copy_text(&p[7].text);
    let ghost items = p@;
    let branches = match &p[4].texts {
        None => {
            return None;
        },
        Some(bs) => {
            let mut out: Vec<String> = Vec::new();
            let mut i: usize = 0;
            while i < bs.len()
                invariant
                    i <= bs@.len(),
                    items == p@,
                    items[4].texts == Some(*bs),
                    out@.len() == i,
                    forall|k: int| 0 <= k < i ==> (#[trigger] bs@[k]) is Some && out@[k]@ == bs@[k]->Some_0@,
                decreases bs@.len() - i,
            {
                match &bs[i] {
                    Some(b) => {
                        out.push(b.clone());
                    },
                    None => {
                        return None;
                    },
                }
                i = i + 1;
            }
            assert(out@.map_values(|b: String| b@) =~= bs@.map_values(|b: Option<String>| b->Some_0@));
            out
        },
    };
    match (prevhash, coinb1, coinb2, version, nbits, ntime) {
        (Some(prevhash), Some(coinb1), Some(coinb2), Some(version), Some(nbits), Some(ntime)) => {
            let np = NotifyParams { prevhash, coinb1, coinb2, merkle_branches: branches, version, nbits, ntime };
            Some(np)
        },
        _ => None,
    }
}

impl Session {
    /// A session that has heard nothing yet.
    pub fn new() -> (s: Self)
        ensures
            s.extranonce1@ == Seq::<char>::empty(),
            s.extranonce2_size == 0,
            !s.authorized,
            s.difficulty is None,
    {
        Session { extranonce1: String::new(), extranonce2_size: 0, authorized: false, difficulty: None }
    }

    /// Handles one message from the pool, in the order the miner checks
    /// them: share replies, the subscription reply (id 1), the authorization
    /// reply (id 2), then the methods `mining.set_difficulty` and
    /// `mining.notify`. `idle` is true while no job is being mined: then a
    /// job announcement is passed over, the subscription reply is read
    /// without its length check, and a difficulty message that carries no
    /// number clears the difficulty.
    pub fn handle(&mut self, r: &mut Runtime, msg: &StratumMessage, idle: bool) -> (a: SessionAction)
        requires
            old(r).shares_accepted < u64::MAX,
            old(r).shares_rejected < u64::MAX,
            old(r).shares_stale < u64::MAX,
        ensures
            is_share_reply(*msg) ==> a is ShareReply && *final(self) == *old(self) && *final(r)
                == count_share_reply(*old(r), *msg),
            !is_share_reply(*msg) ==> *final(r) == *old(r),
            !is_share_reply(*msg) && msg.id == Some(1u64) ==> match subscribe_fields(*msg, idle) {
                Err(e) => a == SessionAction::Fail(e) && *final(self) == *old(self),
                Ok((e1, n)) => a is SendAuthorize && final(self).extranonce1@ == e1
                    && final(self).extranonce2_size == n as usize && final(self).authorized
                    == old(self).authorized && final(self).difficulty == old(self).difficulty,
            },
            !is_share_reply(*msg) && msg.id == Some(2u64) ==> {
                &&& final(self).authorized == (msg.result_flag == Some(true))
                &&& final(self).extranonce1 == old(self).extranonce1
                &&& final(self).extranonce2_size == old(self).extranonce2_size
                &&& final(self).difficulty == old(self).difficulty
                &&& if msg.result_flag == Some(true) {
                    a is Authorized
                } else {
                    a == SessionAction::Fail(SessionError::AuthorizationFailed)
                }
            },
            !is_share_reply(*msg) && msg.id != Some(1u64) && msg.id != Some(2u64) && is_method(
                *msg,
                "mining.set_difficulty"@,
            ) ==> {
                &&& final(self).extranonce1 == old(self).extranonce1
                &&& final(self).extranonce2_size == old(self).extranonce2_size
                &&& final(self).authorized == old(self).authorized
                &&& if idle || first_difficulty(*msg) is Some {
                    a is DifficultySet && final(self).difficulty == first_difficulty(*msg)
                } else {
                    a is Ignore && final(self).difficulty == old(self).difficulty
                }
            },
            !is_share_reply(*msg) && msg.id != Some(1u64) && msg.id != Some(2u64) && !is_method(
                *msg,
                "mining.set_difficulty"@,
            ) && is_method(*msg, "mining.notify"@) ==> *final(self) == *old(self) && if idle {
                a is Ignore
            } else {
                notify_action_ok(*old(self), *msg, a)
            },
            !is_share_reply(*msg) && msg.id != Some(1u64) && msg.id != Some(2u64) && !is_method(
                *msg,
                "mining.set_difficulty"@,
            ) && !is_method(*msg, "mining.notify"@) ==> a is Ignore && *final(self) == *old(self),
    {
        if let Some(id) = msg.id {
            if id >= 1001 {
                if msg.result_flag == Some(true) {
                    r.shares_accepted = r.shares_accepted + 1;
                } else {
                    r.shares_rejected = r.shares_rejected + 1;
                    if msg.error_code == Some(21i64) {
                        r.shares_stale = r.shares_stale + 1;
                    }
                }
                return SessionAction::ShareReply;
            }
        }
        if msg.id == Some(1u64) {
            return self.subscribe(msg, idle);
        }
        if msg.id == Some(2u64) {
            let ok = msg.result_flag == Some(true);
            self.authorized = ok;
            if ok {
                return SessionAction::Authorized;
            } else {
                return SessionAction::Fail(SessionError::AuthorizationFailed);
            }
        }
        let set_difficulty = String::from_str("mining.set_difficulty");
        let notify = String::from_str("mining.notify");
        let method_is_difficulty = match &msg.method {
            Some(m) => *m == set_difficulty,
            None => false,
        };
        if method_is_difficulty {
            let first = match &msg.params {
                Some(p) => if p.len() > 0 {
                    p[0].difficulty
                } else {
                    None
                },
                None => None,
            };
            if idle || first.is_some() {
                self.difficulty = first;
                return SessionAction::DifficultySet;
            }
            return SessionAction::Ignore;
        }
        let method_is_notify = match &msg.method {
            Some(m) => *m == notify,
            None => false,
        };
        if method_is_notify && !idle {
            return self.notify(msg);
        }
        SessionAction::Ignore
    }

    fn subscribe(&mut self, msg: &StratumMessage, idle: bool) -> (a: SessionAction)
        requires
            msg.id == Some(1u64),
        ensures
            match subscribe_fields(*msg, idle) {
                Err(e) => a == SessionAction::Fail(e) && *final(self) == *old(self),
                Ok((e1, n)) => a is SendAuthorize && final(self).extranonce1@ == e1
                    && final(self).extranonce2_size == n as usize && final(self).authorized
                    == old(self).authorized && final(self).difficulty == old(self).difficulty,
            },
    {
        let items = match &msg.result_items {
            None => {
                return SessionAction::Fail(SessionError::InvalidSubscribe);
            },
            Some(v) => v,
        };
        if !idle && items.len() < 3 {
            return SessionAction::Fail(SessionError::ShortSubscribe);
        }
        if items.len() < 2 {
            return SessionAction::Fail(SessionError::MissingExtranonce1);
        }
        let e1 = match &items[1].text {
            None => {
                return SessionAction::Fail(SessionError::MissingExtranonce1);
            },
            Some(t) => t.clone(),
        };
        if items.len() < 3 {
            return SessionAction::Fail(SessionError::MissingExtranonce2Size);
        }
        let n = match items[2].number {
            None => {
                return SessionAction::Fail(SessionError::MissingExtranonce2Size);
            },
            Some(n) => n,
        };
        self.extranonce1 = e1;
        self.extranonce2_size = #[verifier::truncate] (n as usize);
        SessionAction::SendAuthorize
    }

    fn notify(&self, msg: &StratumMessage) -> (a: SessionAction)
        ensures
            notify_action_ok(*self, *msg, a),
    {
        if !self.authorized {
            return SessionAction::Ignore;
        }
        let d = match self.difficulty {
            None => {
                return SessionAction::AwaitDifficulty;
            },
            Some(Difficulty::Unsupported) => {
                return SessionAction::UnsupportedDifficulty;
            },
            Some(Difficulty::Integer(d)) => d,
        };
        if d == 0 {
            return SessionAction::UnsupportedDifficulty;
        }
        let target = share_target_from_divisor(d);
        let p = match &msg.params {
            None => {
                return SessionAction::Fail(SessionError::MissingNotifyParams);
            },
            Some(p) => p,
        };
        if p.len() < 9 {
            return SessionAction::Fail(SessionError::ShortNotify);
        }
        let job_id = match &p[0].text {
            None => {
                return SessionAction::Fail(SessionError::MissingJobId);
            },
            Some(t) => t.clone(),
        };
        let ntime = match &p[7].text {
            None => {
                return SessionAction::Fail(SessionError::MissingNtime);
            },
            Some(t) => t.clone(),
        };
        let clean_jobs = p[8].flag == Some(true);
        let np = match notify_params(p) {
            None => {
                return SessionAction::Fail(SessionError::MalformedNotify);
            },
            Some(np) => np,
        };
        match build_header(self.extranonce1.as_str(), self.extranonce2_size, &np) {
            Err(e) => SessionAction::Fail(SessionError::Header(e)),
            Ok((header, extranonce2)) => {
                let nonce_offset = job_offset(job_id.as_str(), &header);
                SessionAction::NewJob(
                    LiveJob {
                        job_id,
                        header,
                        extranonce2,
                        ntime,
                        clean_jobs,
                        target,
                        nonce_cursor: 0,
                        nonce_offset,
                    },
                )
            },
        }
    }
}

} // verus!
