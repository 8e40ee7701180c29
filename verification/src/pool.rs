//! The Stratum session of the pool-learning run: it subscribes, authorizes,
//! and turns each job into the header that the run learns from; it never
//! submits a share.
use vstd::prelude::*;
use crate::p2p::le_u32_at;
use crate::session::copy_text;
use crate::session::is_method;
use crate::session::notify_params;
use crate::session::notify_view_of;
use crate::session::params_of;
use crate::session::subscribe_fields;
use crate::session::zero_extranonce2;
use crate::session::JsonItem;
use crate::session::SessionError;
use crate::session::StratumMessage;
use crate::stratum::build_header;
use crate::stratum::header_spec;

verus! {

/// What the run has learnt from the pool.
pub struct PoolSession {
    pub extranonce1: String,
    pub extranonce2_size: usize,
    pub authorized: bool,
}

/// A job to learn from: its id, its header with a zero nonce, whether the
/// pool asked to drop older jobs, and its compact target.
pub struct PoolJob {
    pub job_id: String,
    pub header: [u8; 80],
    pub clean_jobs: bool,
    pub bits: u32,
}

/// What the run does after a message.
pub enum PoolAction {
    /// Subscribed: send the authorization.
    SendAuthorize,
    Authorized,
    /// A difficulty arrived; the run only records it.
    Difficulty,
    /// A job came before the authorization; it is passed over.
    NotAuthorized,
    /// A job came before the subscription was complete; it is passed over.
    NotSubscribed,
    /// Learn from this job.
    Job(PoolJob),
    /// Nothing to do.
    Ignore,
    /// The run ends.
    Fail(SessionError),
}

/// Why a `mining.notify` with params `p` gives no job, checked in the order
/// the fields are read; `None` when a job can be built.
pub open spec fn pool_notify_error(s: PoolSession, p: Option<Seq<JsonItem>>) -> Option<SessionError> {
    match p {
        None => Some(SessionError::MissingNotifyParams),
        Some(p) => if p.len() < 9 {
            Some(SessionError::ShortNotify)
        } else if p[0].text is None {
            Some(SessionError::MissingJobId)
        } else {
            match notify_view_of(p) {
                None => Some(SessionError::MalformedNotify),
                Some(v) => match header_spec(s.extranonce1@, Some(zero_extranonce2(s.extranonce2_size)), v) {
                    Err(e) => Some(SessionError::Header(e)),
                    Ok(_) => None,
                },
            }
        },
    }
}

/// `job` is the job that params `p` announce to session `s`.
pub open spec fn pool_job(s: PoolSession, p: Seq<JsonItem>, job: PoolJob) -> bool {
    &&& header_spec(s.extranonce1@, Some(zero_extranonce2(s.extranonce2_size)), notify_view_of(p)->Some_0)
        == Ok::<Seq<u8>, crate::stratum::HeaderError>(job.header@)
    &&& job.job_id@ == p[0].text->Some_0@
    &&& job.clean_jobs == (p[8].flag == Some(true))
    &&& job.bits == le_u32_at(job.header@, 72)
}

impl PoolSession {
    /// A session that has heard nothing yet.
    pub fn new() -> (s: Self)
        ensures
            s.extranonce1@ == Seq::<char>::empty(),
            s.extranonce2_size == 0,
            !s.authorized,
    {
        PoolSession { extranonce1: String::new(), extranonce2_size: 0, authorized: false }
    }

    /// Handles one message from the pool: the subscription reply (id 1),
    /// the authorization reply (id 2), then `mining.set_difficulty` and
    /// `mining.notify`; anything else is passed over.
    pub fn handle(&mut self, msg: &StratumMessage) -> (a: PoolAction)
        ensures
            msg.id == Some(1u64) ==> match subscribe_fields(*msg, false) {
                Err(e) => a == PoolAction::Fail(e) && *final(self) == *old(self),
                Ok((e1, n)) => a is SendAuthorize && final(self).extranonce1@ == e1
                    && final(self).extranonce2_size == n as usize && final(self).authorized
                    == old(self).authorized,
            },
            msg.id == Some(2u64) ==> {
                &&& final(self).authorized == (msg.result_flag == Some(true))
                &&& final(self).extranonce1 == old(self).extranonce1
                &&& final(self).extranonce2_size == old(self).extranonce2_size
                &&& if msg.result_flag == Some(true) {
                    a is Authorized
                } else {
                    a == PoolAction::Fail(SessionError::AuthorizationFailed)
                }
            },
            msg.id != Some(1u64) && msg.id != Some(2u64) ==> *final(self) == *old(self),
            msg.id != Some(1u64) && msg.id != Some(2u64) && is_method(*msg, "mining.set_difficulty"@)
                ==> a is Difficulty,
            msg.id != Some(1u64) && msg.id != Some(2u64) && !is_method(*msg, "mining.set_difficulty"@)
                && !is_method(*msg, "mining.notify"@) ==> a is Ignore,
            msg.id != Some(1u64) && msg.id != Some(2u64) && !is_method(*msg, "mining.set_difficulty"@)
                && is_method(*msg, "mining.notify"@) ==> if !old(self).authorized {
                a is NotAuthorized
            } else if old(self).extranonce1@.len() == 0 || old(self).extranonce2_size == 0 {
                a is NotSubscribed
            } else {
                match pool_notify_error(*old(self), params_of(*msg)) {
                    Some(e) => a == PoolAction::Fail(e),
                    None => a matches PoolAction::Job(job) && pool_job(*old(self), params_of(*msg)->Some_0, job),
                }
            },
    {
        proof {
            reveal_strlit("mining.set_difficulty");
            reveal_strlit("mining.notify");
            assert("mining.set_difficulty"@.len() == 21 && "mining.notify"@.len() == 13);
            assert("mining.set_difficulty"@ != "mining.notify"@);
        }
        if msg.id == Some(1u64) {
            return self.subscribe(msg);
        }
        if msg.id == Some(2u64) {
            let ok = msg.result_flag == Some(true);
            self.authorized = ok;
            if ok {
                return PoolAction::Authorized;
            } else {
                return PoolAction::Fail(SessionError::AuthorizationFailed);
            }
        }
        let set_difficulty = String::from_str("mining.set_difficulty");
        let notify = String::from_str("mining.notify");
        let method_is_difficulty = match &msg.method {
            Some(m) => *m == set_difficulty,
            None => false,
        };
        if method_is_difficulty {
            return PoolAction::Difficulty;
        }
        let method_is_notify = match &msg.method {
            Some(m) => *m == notify,
            None => false,
        };
        if !method_is_notify {
            return PoolAction::Ignore;
        }
        if !self.authorized {
            return PoolAction::NotAuthorized;
        }
        if self.extranonce1.as_str().unicode_len() == 0 || self.extranonce2_size == 0 {
            return PoolAction::NotSubscribed;
        }
        self.job(msg)
    }

    fn subscribe(&mut self, msg: &StratumMessage) -> (a: PoolAction)
        requires
            msg.id == Some(1u64),
        ensures
            match subscribe_fields(*msg, false) {
                Err(e) => a == PoolAction::Fail(e) && *final(self) == *old(self),
                Ok((e1, n)) => a is SendAuthorize && final(self).extranonce1@ == e1
                    && final(self).extranonce2_size == n as usize && final(self).authorized
                    == old(self).authorized,
            },
    {
        let items = match &msg.result_items {
            None => {
                return PoolAction::Fail(SessionError::InvalidSubscribe);
            },
            Some(v) => v,
        };
        if items.len() < 3 {
            return PoolAction::Fail(SessionError::ShortSubscribe);
        }
        let e1 = match copy_text(&items[1].text) {
            None => {
                return PoolAction::Fail(SessionError::MissingExtranonce1);
            },
            Some(t) => t,
        };
        let n = match items[2].number {
            None => {
                return PoolAction::Fail(SessionError::MissingExtranonce2Size);
            },
            Some(n) => n,
        };
        self.extranonce1 = e1;
        self.extranonce2_size = #[verifier::truncate] (n as usize);
        PoolAction::SendAuthorize
    }

    fn job(&self, msg: &StratumMessage) -> (a: PoolAction)
        ensures
            match pool_notify_error(*self, params_of(*msg)) {
                Some(e) => a == PoolAction::Fail(e),
                None => a matches PoolAction::Job(job) && pool_job(*self, params_of(*msg)->Some_0, job),
            },
    {
        let p = match &msg.params {
            None => {
                return PoolAction::Fail(SessionError::MissingNotifyParams);
            },
            Some(p) => p,
        };
        if p.len() < 9 {
            return PoolAction::Fail(SessionError::ShortNotify);
        }
        let job_id = match copy_text(&p[0].text) {
            None => {
                return PoolAction::Fail(SessionError::MissingJobId);
            },
            Some(t) => t,
        };
        let clean_jobs = p[8].flag == Some(true);
        let np = match notify_params(p) {
            None => {
                return PoolAction::Fail(SessionError::MalformedNotify);
            },
            Some(np) => np,
        };
        match build_header(self.extranonce1.as_str(), self.extranonce2_size, &np) {
            Err(e) => PoolAction::Fail(SessionError::Header(e)),
            Ok((header, _)) => {
                let bits = header[72] as u32 + header[73] as u32 * 0x100 + header[74] as u32 * 0x1_0000
                    + header[75] as u32 * 0x100_0000;
                PoolAction::Job(PoolJob { job_id, header, clean_jobs, bits })
            },
        }
    }
}

} // verus!
