//! The continuous region miner: its Stratum session, the jobs it mines
//! region by region under a fresh extranonce2 each time, the shares found in
//! a chunk of nonces, and its run counters.
use vstd::prelude::*;
use crate::bignum::be_value;
use crate::bignum::le_value;
use crate::pow::diff1_target_spec;
use crate::pow::hash_meets_share_target;
use crate::pow::header_hash;
use crate::pow::sha256d_header;
use crate::pow::share_target_from_divisor;
use crate::session::copy_text;
use crate::session::first_difficulty;
use crate::session::is_method;
use crate::session::notify_params;
use crate::session::notify_view_of;
use crate::session::subscribe_fields;
use crate::session::Difficulty;
use crate::session::JsonItem;
use crate::session::SessionError;
use crate::session::StratumMessage;
use crate::stratum::build_header_with_extranonce2;
use crate::stratum::counter_bytes_be;
use crate::stratum::extranonce2_hex;
use crate::stratum::header_spec;
use crate::stratum::hex_encode_spec;
use crate::stratum::HeaderError;
use crate::stratum::NotifyParams;
use crate::stratum::NotifyView;
use crate::session::params_of;

verus! {

/// The miner's counters, kept across sessions.
#[derive(Debug, Clone, Copy, PartialEq, Eq, Structural)]
pub struct ScanRuntime {
    pub total_hashes: u64,
    pub session_hashes: u64,
    pub jobs: u64,
    pub work_units: u64,
    pub extranonce2_counter: u64,
    pub shares_found: u64,
    pub shares_submitted: u64,
    pub shares_accepted: u64,
    pub shares_rejected: u64,
    pub shares_stale: u64,
    pub submit_id: u64,
}

impl ScanRuntime {
    /// Fresh counters: all zero, submissions numbered after 1000.
    pub fn new() -> (r: Self)
        ensures
            r == (ScanRuntime {
                total_hashes: 0,
                session_hashes: 0,
                jobs: 0,
                work_units: 0,
                extranonce2_counter: 0,
                shares_found: 0,
                shares_submitted: 0,
                shares_accepted: 0,
                shares_rejected: 0,
                shares_stale: 0,
                submit_id: 1000,
            }),
    {
        ScanRuntime {
            total_hashes: 0,
            session_hashes: 0,
            jobs: 0,
            work_units: 0,
            extranonce2_counter: 0,
            shares_found: 0,
            shares_submitted: 0,
            shares_accepted: 0,
            shares_rejected: 0,
            shares_stale: 0,
            submit_id: 1000,
        }
    }
}

/// What the miner keeps of a job announcement to derive further work from it.
pub struct JobTemplate {
    pub job_id: String,
    pub ntime: String,
    pub clean_jobs: bool,
    /// The header fields, `None` when one of them is not text.
    pub params: Option<NotifyParams>,
}

/// One unit of work: a job's header under one extranonce2, and its share target.
pub struct ScanJob {
    pub job_id: String,
    pub header: [u8; 80],
    pub extranonce2: String,
    pub ntime: String,
    pub clean_jobs: bool,
    pub target: [u8; 32],
}

/// What the session has learnt from the pool.
pub struct ScanSession {
    pub extranonce1: String,
    pub extranonce2_size: usize,
    pub authorized: bool,
    pub difficulty: Option<Difficulty>,
}

/// Why the session ends.
#[derive(Debug, Clone, Copy, PartialEq, Eq, Structural)]
pub enum ScanError {
    /// A subscription, authorization or job announcement was refused.
    Session(SessionError),
    /// `mining.set_extranonce` without a text extranonce1.
    SetExtranonce1,
    /// `mining.set_extranonce` without a numeric extranonce2 size.
    SetExtranonceSize,
    /// The extranonce2 size is not between one and eight bytes.
    Extranonce2Size { size: usize },
    /// The difficulty has no supported share target.
    UnsupportedDifficulty,
    /// Work was asked for before any difficulty.
    MissingDifficulty,
}

/// What the miner does after a message.
pub enum ScanAction {
    /// Subscribed: send the authorization.
    SendAuthorize,
    Authorized,
    DifficultySet,
    /// The extranonce changed: drop the current work.
    ExtranonceSet,
    /// A job came before any difficulty; it is not mined.
    AwaitDifficulty,
    /// Mine this job from now on.
    NewJob(JobTemplate, ScanJob),
    /// Nothing to do.
    Ignore,
    /// The session ends.
    Fail(ScanError),
}

/// The header fields of a template, as text.
pub open spec fn params_view(t: JobTemplate) -> Option<NotifyView> {
    match t.params {
        Some(np) => Some(np@),
        None => None,
    }
}

/// `t` is the template that params `p` (at least nine) announce.
pub open spec fn template_of(p: Seq<JsonItem>, t: JobTemplate) -> bool {
    &&& t.job_id@ == p[0].text->Some_0@
    &&& t.ntime@ == p[7].text->Some_0@
    &&& t.clean_jobs == (p[8].flag == Some(true))
    &&& params_view(t) == notify_view_of(p)
}

/// The share target of a difficulty, if it has one.
pub open spec fn target_value(d: Difficulty) -> Option<nat> {
    match d {
        Difficulty::Integer(n) => if n > 0 {
            Some(be_value(diff1_target_spec()) / (n as nat))
        } else {
            None
        },
        Difficulty::Unsupported => None,
    }
}

/// Why work from header fields `v` under extranonce2 counter `c` at
/// difficulty `d` cannot be made in session `s`, checked in order; `None`
/// when it can.
pub open spec fn work_error(s: ScanSession, v: Option<NotifyView>, c: u64, d: Difficulty) -> Option<ScanError> {
    if !(1 <= s.extranonce2_size <= 8) {
        Some(ScanError::Extranonce2Size { size: s.extranonce2_size })
    } else {
        match v {
            None => Some(ScanError::Session(SessionError::MalformedNotify)),
            Some(v) => match header_spec(s.extranonce1@, Some(counter_bytes_be(c, s.extranonce2_size as nat)), v) {
                Err(e) => Some(ScanError::Session(SessionError::Header(e))),
                Ok(_) => match target_value(d) {
                    None => Some(ScanError::UnsupportedDifficulty),
                    Some(_) => None,
                },
            },
        }
    }
}

/// `job` is the work from header fields `v` under extranonce2 counter `c`
/// at difficulty `d` in session `s`: its header, its extranonce2 in hex and
/// its share target.
pub open spec fn is_work(s: ScanSession, v: NotifyView, c: u64, d: Difficulty, job: ScanJob) -> bool {
    let z = counter_bytes_be(c, s.extranonce2_size as nat);
    &&& header_spec(s.extranonce1@, Some(z), v) == Ok::<Seq<u8>, HeaderError>(job.header@)
    &&& job.extranonce2@ == hex_encode_spec(z)
    &&& target_value(d) == Some(be_value(job.target@))
}

/// Why a `mining.notify` with params `p` is refused before any work is
/// made from it.
pub open spec fn notify_fields_error(p: Option<Seq<JsonItem>>) -> Option<SessionError> {
    match p {
        None => Some(SessionError::MissingNotifyParams),
        Some(p) => if p.len() < 9 {
            Some(SessionError::ShortNotify)
        } else if p[0].text is None {
            Some(SessionError::MissingJobId)
        } else if p[7].text is None {
            Some(SessionError::MissingNtime)
        } else {
            None
        },
    }
}

/// The nonces among `start .. start + k` (as 32-bit values) whose digest
/// meets `target`, in increasing order.
pub open spec fn shares_in(header: Seq<u8>, target: Seq<u8>, start: u64, k: nat) -> Seq<u32>
    decreases k,
{
    if k == 0 {
        Seq::empty()
    } else {
        let n = (start + (k - 1)) as u32;
        let prev = shares_in(header, target, start, (k - 1) as nat);
        if le_value(header_hash(header, n)) <= be_value(target) {
            prev.push(n)
        } else {
            prev
        }
    }
}

/// The `i`-th nonce of a chunk starting at `start`, as a 32-bit value.
pub open spec fn chunk_nonce(start: u64, i: int) -> u32 {
    (start + i) as u32
}

/// Whether `n` is one of the first `count` nonces of a chunk from `start`.
pub open spec fn in_chunk(start: u64, count: nat, n: u32) -> bool {
    exists|t: int| 0 <= t < count && n == #[trigger] chunk_nonce(start, t)
}

/// Share law: the shares of a chunk are exactly its nonces whose digest,
/// read as a little-endian number, is at most the big-endian target. Each
/// listed nonce is one of the chunk's and meets the target, and every
/// nonce of the chunk that meets the target is listed.
pub proof fn lemma_shares_are_low_digests(header: Seq<u8>, target: Seq<u8>, start: u64, k: nat)
    ensures
        forall|j: int| 0 <= j < shares_in(header, target, start, k).len() ==> le_value(
            header_hash(header, #[trigger] shares_in(header, target, start, k)[j]),
        ) <= be_value(target),
        forall|j: int| 0 <= j < shares_in(header, target, start, k).len() ==> exists|i: int|
            0 <= i < k && #[trigger] shares_in(header, target, start, k)[j] == chunk_nonce(start, i),
        forall|i: int| 0 <= i < k && le_value(header_hash(header, #[trigger] chunk_nonce(start, i)))
            <= be_value(target) ==> shares_in(header, target, start, k).contains(chunk_nonce(start, i)),
    decreases k,
{
    if k > 0 {
        let prev = shares_in(header, target, start, (k - 1) as nat);
        let s = shares_in(header, target, start, k);
        let n = chunk_nonce(start, k - 1);
        lemma_shares_are_low_digests(header, target, start, (k - 1) as nat);
        assert(n == (start + (k - 1)) as u32);
        assert forall|j: int| 0 <= j < s.len() implies exists|i: int| 0 <= i < k && #[trigger] s[j]
            == chunk_nonce(start, i) by {
            if j < prev.len() {
                assert(s[j] == prev[j]);
                let i0 = choose|i: int| 0 <= i < k - 1 && prev[j] == chunk_nonce(start, i);
                assert(0 <= i0 < k && s[j] == chunk_nonce(start, i0));
            } else {
                assert(s[j] == chunk_nonce(start, k - 1));
            }
        }
        assert forall|j: int| 0 <= j < s.len() implies le_value(header_hash(header, #[trigger] s[j]))
            <= be_value(target) by {
            if j < prev.len() {
                assert(s[j] == prev[j]);
            }
        }
        assert forall|i: int| 0 <= i < k && le_value(header_hash(header, #[trigger] chunk_nonce(start, i)))
            <= be_value(target) implies s.contains(chunk_nonce(start, i)) by {
            if i < k - 1 {
                let j0 = choose|j: int| 0 <= j < prev.len() && prev[j] == chunk_nonce(start, i);
                assert(s[j0] == prev[j0]);
            } else {
                assert(s[prev.len() as int] == n);
            }
        }
    }
}

/// Hashes the `count` nonces from `start` and returns those that give a
/// share, in order: a returned nonce is one of the chunk's and its digest,
/// read little-endian, is at most the big-endian target; every nonce of
/// the chunk whose digest is that low is returned.
pub fn chunk_shares(header: &[u8; 80], target: &[u8; 32], start: u64, count: u64) -> (r: Vec<u32>)
    requires
        start + count <= u64::MAX,
    ensures
        r@ == shares_in(header@, target@, start, count as nat),
        forall|j: int| 0 <= j < r@.len() ==> le_value(header_hash(header@, #[trigger] r@[j]))
            <= be_value(target@),
        forall|j: int| 0 <= j < r@.len() ==> in_chunk(start, count as nat, #[trigger] r@[j]),
        forall|i: int| 0 <= i < count && le_value(header_hash(header@, #[trigger] chunk_nonce(start, i)))
            <= be_value(target@) ==> r@.contains(chunk_nonce(start, i)),
{
    let mut found: Vec<u32> = Vec::new();
    let mut i: u64 = 0;
    while i < count
        invariant
            i <= count,
            start + count <= u64::MAX,
            found@ == shares_in(header@, target@, start, i as nat),
        decreases count - i,
    {
        let nonce = #[verifier::truncate] ((start + i) as u32);
        let hash = sha256d_header(header, nonce);
        if hash_meets_share_target(&hash, target) {
            found.push(nonce);
        }
        i = i + 1;
    }
    proof {
        lemma_shares_are_low_digests(header@, target@, start, count as nat);
        assert forall|j: int| 0 <= j < found@.len() implies in_chunk(start, count as nat, #[trigger] found@[j]) by {
            let sh = shares_in(header@, target@, start, count as nat);
            assert(found@[j] == sh[j]);
            let t0 = choose|t: int| 0 <= t < count && sh[j] == chunk_nonce(start, t);
            assert(0 <= t0 < count && found@[j] == chunk_nonce(start, t0));
        }
    }
    found
}

/// The counters after a chunk of `count` hashes that found `found` shares.
pub fn record_chunk(r: &mut ScanRuntime, count: u64, found: u64)
    requires
        old(r).total_hashes + count <= u64::MAX,
        old(r).session_hashes + count <= u64::MAX,
        old(r).shares_found + found <= u64::MAX,
        old(r).work_units < u64::MAX,
    ensures
        *final(r) == (ScanRuntime {
            total_hashes: (old(r).total_hashes + count) as u64,
            session_hashes: (old(r).session_hashes + count) as u64,
            shares_found: (old(r).shares_found + found) as u64,
            work_units: (old(r).work_units + 1) as u64,
            ..*old(r)
        }),
{
    r.total_hashes = r.total_hashes + count;
    r.session_hashes = r.session_hashes + count;
    r.shares_found = r.shares_found + found;
    r.work_units = r.work_units + 1;
}

/// Numbers a share submission: the next id, one more submitted share.
pub fn claim_submission(r: &mut ScanRuntime) -> (id: u64)
    requires
        old(r).submit_id < u64::MAX,
        old(r).shares_submitted < u64::MAX,
    ensures
        id == old(r).submit_id + 1,
        *final(r) == (ScanRuntime {
            submit_id: id,
            shares_submitted: (old(r).shares_submitted + 1) as u64,
            ..*old(r)
        }),
{
    r.submit_id = r.submit_id + 1;
    r.shares_submitted = r.shares_submitted + 1;
    r.submit_id
}

/// Counts the pool's answer to a submitted share: accepted when `result`
/// is true, otherwise rejected, and stale when the error code is 21.
pub fn record_reply(r: &mut ScanRuntime, result_flag: Option<bool>, error_code: Option<i64>) -> (accepted: bool)
    requires
        old(r).shares_accepted < u64::MAX,
        old(r).shares_rejected < u64::MAX,
        old(r).shares_stale < u64::MAX,
    ensures
        accepted == (result_flag == Some(true)),
        accepted ==> *final(r) == (ScanRuntime {
            shares_accepted: (old(r).shares_accepted + 1) as u64,
            ..*old(r)
        }),
        !accepted ==> *final(r) == (ScanRuntime {
            shares_rejected: (old(r).shares_rejected + 1) as u64,
            shares_stale: (old(r).shares_stale + if error_code == Some(21i64) { 1int } else { 0int }) as u64,
            ..*old(r)
        }),
{
    if result_flag == Some(true) {
        r.shares_accepted = r.shares_accepted + 1;
        true
    } else {
        r.shares_rejected = r.shares_rejected + 1;
        if error_code == Some(21i64) {
            r.shares_stale = r.shares_stale + 1;
        }
        false
    }
}

impl ScanSession {
    /// A session that has heard nothing yet.
    pub fn new() -> (s: Self)
        ensures
            s.extranonce1@ == Seq::<char>::empty(),
            s.extranonce2_size == 0,
            !s.authorized,
            s.difficulty is None,
    {
        ScanSession { extranonce1: String::new(), extranonce2_size: 0, authorized: false, difficulty: None }
    }

    /// Derives work from a template: the next extranonce2 counter, the
    /// header under that extranonce2, and the share target of the current
    /// difficulty. The counter moves on even when the work is refused.
    pub fn next_job(&self, r: &mut ScanRuntime, t: &JobTemplate) -> (res: Result<ScanJob, ScanError>)
        ensures
            *final(r) == (ScanRuntime {
                extranonce2_counter: old(r).extranonce2_counter.wrapping_add(1),
                ..*old(r)
            }),
            match self.difficulty {
                None => res == Err::<ScanJob, ScanError>(ScanError::MissingDifficulty),
                Some(d) => match work_error(*self, params_view(*t), final(r).extranonce2_counter, d) {
                    Some(e) => res == Err::<ScanJob, ScanError>(e),
                    None => res matches Ok(job) && is_work(
                        *self,
                        params_view(*t)->Some_0,
                        final(r).extranonce2_counter,
                        d,
                        job,
                    ) && job.job_id@ == t.job_id@ && job.ntime@ == t.ntime@ && job.clean_jobs
                        == t.clean_jobs,
                },
            },
    {
        r.extranonce2_counter = r.extranonce2_counter.wrapping_add(1);
        let d = match self.difficulty {
            None => {
                return Err(ScanError::MissingDifficulty);
            },
            Some(d) => d,
        };
        let ex2 = match extranonce2_hex(r.extranonce2_counter, self.extranonce2_size) {
            Err(_) => {
                return Err(ScanError::Extranonce2Size { size: self.extranonce2_size });
            },
            Ok(s) => s,
        };
        let np = match &t.params {
            None => {
                return Err(ScanError::Session(SessionError::MalformedNotify));
            },
            Some(np) => np,
        };
        proof {
            crate::stratum::lemma_hex_round_trip(counter_bytes_be(r.extranonce2_counter, self.extranonce2_size as nat));
        }
        let header = match build_header_with_extranonce2(self.extranonce1.as_str(), ex2.as_str(), np) {
            Err(e) => {
                return Err(ScanError::Session(SessionError::Header(e)));
            },
            Ok(h) => h,
        };
        let divisor = match d {
            Difficulty::Integer(n) => n,
            Difficulty::Unsupported => 0,
        };
        if divisor == 0 {
            return Err(ScanError::UnsupportedDifficulty);
        }
        let target = share_target_from_divisor(divisor);
        Ok(
            ScanJob {
                job_id: t.job_id.clone(),
                header,
                extranonce2: ex2,
                ntime: t.ntime.clone(),
                clean_jobs: t.clean_jobs,
                target,
            },
        )
    }

    /// Handles one message from the pool that is not the answer to a
    /// submitted share: the subscription reply (id 1), the authorization
    /// reply (id 2), then `mining.set_difficulty`, `mining.set_extranonce`
    /// and `mining.notify`; anything else is passed over.
    pub fn handle(&mut self, r: &mut ScanRuntime, msg: &StratumMessage) -> (a: ScanAction)
        requires
            old(r).jobs < u64::MAX,
        ensures
            msg.id == Some(1u64) ==> *final(r) == *old(r) && match subscribe_fields(*msg, false) {
                Err(e) => a == ScanAction::Fail(ScanError::Session(e)) && *final(self) == *old(self),
                Ok((e1, n)) => a is SendAuthorize && final(self).extranonce1@ == e1
                    && final(self).extranonce2_size == n as usize && final(self).authorized
                    == old(self).authorized && final(self).difficulty == old(self).difficulty,
            },
            msg.id == Some(2u64) ==> {
                &&& *final(r) == *old(r)
                &&& final(self).authorized == (msg.result_flag == Some(true))
                &&& final(self).extranonce1 == old(self).extranonce1
                &&& final(self).extranonce2_size == old(self).extranonce2_size
                &&& final(self).difficulty == old(self).difficulty
                &&& if msg.result_flag == Some(true) {
                    a is Authorized
                } else {
                    a == ScanAction::Fail(ScanError::Session(SessionError::AuthorizationFailed))
                }
            },
            msg.id != Some(1u64) && msg.id != Some(2u64) && is_method(*msg, "mining.set_difficulty"@) ==> {
                &&& *final(r) == *old(r)
                &&& final(self).extranonce1 == old(self).extranonce1
                &&& final(self).extranonce2_size == old(self).extranonce2_size
                &&& final(self).authorized == old(self).authorized
                &&& match first_difficulty(*msg) {
                    Some(d) => a is DifficultySet && final(self).difficulty == Some(d),
                    None => a is Ignore && final(self).difficulty == old(self).difficulty,
                }
            },
            msg.id != Some(1u64) && msg.id != Some(2u64) && is_method(*msg, "mining.set_extranonce"@) ==> {
                &&& *final(r) == *old(r)
                &&& final(self).authorized == old(self).authorized
                &&& final(self).difficulty == old(self).difficulty
                &&& match params_of(*msg) {
                    Some(p) => if p.len() < 2 {
                        a is Ignore && *final(self) == *old(self)
                    } else if p[0].text is None {
                        a == ScanAction::Fail(ScanError::SetExtranonce1)
                    } else if p[1].number is None {
                        a == ScanAction::Fail(ScanError::SetExtranonceSize)
                    } else {
                        a is ExtranonceSet && final(self).extranonce1@ == p[0].text->Some_0@
                            && final(self).extranonce2_size == p[1].number->Some_0 as usize
                    },
                    None => a is Ignore && *final(self) == *old(self),
                }
            },
            msg.id != Some(1u64) && msg.id != Some(2u64) && is_method(*msg, "mining.notify"@) ==> {
                &&& *final(self) == *old(self)
                &&& if !old(self).authorized {
                    a is Ignore && *final(r) == *old(r)
                } else if old(self).difficulty is None {
                    a is AwaitDifficulty && *final(r) == *old(r)
                } else {
                    match notify_fields_error(params_of(*msg)) {
                        Some(e) => a == ScanAction::Fail(ScanError::Session(e)) && *final(r) == *old(r),
                        None => {
                            let p = params_of(*msg)->Some_0;
                            let c = old(r).extranonce2_counter.wrapping_add(1);
                            let d = old(self).difficulty->Some_0;
                            match work_error(*old(self), notify_view_of(p), c, d) {
                                Some(e) => a == ScanAction::Fail(e) && *final(r) == (ScanRuntime {
                                    extranonce2_counter: c,
                                    ..*old(r)
                                }),
                                None => a matches ScanAction::NewJob(t, job) && template_of(p, t) && is_work(
                                    *old(self),
                                    notify_view_of(p)->Some_0,
                                    c,
                                    d,
                                    job,
                                ) && job.job_id@ == t.job_id@ && job.ntime@ == t.ntime@ && job.clean_jobs
                                    == t.clean_jobs && *final(r) == (ScanRuntime {
                                    extranonce2_counter: c,
                                    jobs: (old(r).jobs + 1) as u64,
                                    ..*old(r)
                                }),
                            }
                        },
                    }
                }
            },
            msg.id != Some(1u64) && msg.id != Some(2u64) && !is_method(*msg, "mining.set_difficulty"@)
                && !is_method(*msg, "mining.set_extranonce"@) && !is_method(*msg, "mining.notify"@) ==> a is Ignore
                && *final(self) == *old(self) && *final(r) == *old(r),
    {
        proof {
            reveal_strlit("mining.set_difficulty");
            reveal_strlit("mining.set_extranonce");
            reveal_strlit("mining.notify");
            assert("mining.set_difficulty"@.len() == 21 && "mining.set_extranonce"@.len() == 21
                && "mining.notify"@.len() == 13);
            assert("mining.set_difficulty"@[11] == 'd' && "mining.set_extranonce"@[11] == 'e');
            assert("mining.set_difficulty"@ != "mining.set_extranonce"@);
            assert("mining.set_difficulty"@ != "mining.notify"@);
            assert("mining.set_extranonce"@ != "mining.notify"@);
        }
        if msg.id == Some(1u64) {
            return self.subscribe(msg);
        }
        if msg.id == Some(2u64) {
            let ok = msg.result_flag == Some(true);
            self.authorized = ok;
            if ok {
                return ScanAction::Authorized;
            } else {
                return ScanAction::Fail(ScanError::Session(SessionError::AuthorizationFailed));
            }
        }
        let set_difficulty = String::from_str("mining.set_difficulty");
        let set_extranonce = String::from_str("mining.set_extranonce");
        let notify = String::from_str("mining.notify");
        let method = match &msg.method {
            Some(m) => m.clone(),
            None => String::new(),
        };
        let has_method = msg.method.is_some();
        if has_method && method == set_difficulty {
            let first = match &msg.params {
                Some(p) => if p.len() > 0 {
                    p[0].difficulty
                } else {
                    None
                },
                None => None,
            };
            if first.is_some() {
                self.difficulty = first;
                return ScanAction::DifficultySet;
            }
            return ScanAction::Ignore;
        }
        if has_method && method == set_extranonce {
            let p = match &msg.params {
                Some(p) => p,
                None => {
                    return ScanAction::Ignore;
                },
            };
            if p.len() < 2 {
                return ScanAction::Ignore;
            }
            let e1 = match copy_text(&p[0].text) {
                None => {
                    return ScanAction::Fail(ScanError::SetExtranonce1);
                },
                Some(t) => t,
            };
            let n = match p[1].number {
                None => {
                    return ScanAction::Fail(ScanError::SetExtranonceSize);
                },
                Some(n) => n,
            };
            self.extranonce1 = e1;
            self.extranonce2_size = #[verifier::truncate] (n as usize);
            return ScanAction::ExtranonceSet;
        }
        if !(has_method && method == notify) {
            return ScanAction::Ignore;
        }
        if !self.authorized {
            return ScanAction::Ignore;
        }
        if self.difficulty.is_none() {
            return ScanAction::AwaitDifficulty;
        }
        let p = match &msg.params {
            None => {
                return ScanAction::Fail(ScanError::Session(SessionError::MissingNotifyParams));
            },
            Some(p) => p,
        };
        if p.len() < 9 {
            return ScanAction::Fail(ScanError::Session(SessionError::ShortNotify));
        }
        let job_id = match copy_text(&p[0].text) {
            None => {
                return ScanAction::Fail(ScanError::Session(SessionError::MissingJobId));
            },
            Some(t) => t,
        };
        let ntime = match copy_text(&p[7].text) {
            None => {
                return ScanAction::Fail(ScanError::Session(SessionError::MissingNtime));
            },
            Some(t) => t,
        };
        let t = JobTemplate { job_id, ntime, clean_jobs: p[8].flag == Some(true), params: notify_params(p) };
        match self.next_job(r, &t) {
            Err(e) => ScanAction::Fail(e),
            Ok(job) => {
                r.jobs = r.jobs + 1;
                ScanAction::NewJob(t, job)
            },
        }
    }

    fn subscribe(&mut self, msg: &StratumMessage) -> (a: ScanAction)
        requires
            msg.id == Some(1u64),
        ensures
            match subscribe_fields(*msg, false) {
                Err(e) => a == ScanAction::Fail(ScanError::Session(e)) && *final(self) == *old(self),
                Ok((e1, n)) => a is SendAuthorize && final(self).extranonce1@ == e1
                    && final(self).extranonce2_size == n as usize && final(self).authorized
                    == old(self).authorized && final(self).difficulty == old(self).difficulty,
            },
    {
        let items = match &msg.result_items {
            None => {
                return ScanAction::Fail(ScanError::Session(SessionError::InvalidSubscribe));
            },
            Some(v) => v,
        };
        if items.len() < 3 {
            return ScanAction::Fail(ScanError::Session(SessionError::ShortSubscribe));
        }
        let e1 = match copy_text(&items[1].text) {
            None => {
                return ScanAction::Fail(ScanError::Session(SessionError::MissingExtranonce1));
            },
            Some(t) => t,
        };
        let n = match items[2].number {
            None => {
                return ScanAction::Fail(ScanError::Session(SessionError::MissingExtranonce2Size));
            },
            Some(n) => n,
        };
        self.extranonce1 = e1;
        self.extranonce2_size = #[verifier::truncate] (n as usize);
        ScanAction::SendAuthorize
    }
}

} // verus!
