//! One batch of the live miner: fresh candidate nonces of the job, the
//! random control sample, the hashing of selected candidates, and the
//! audit and learning tallies kept across sessions.
use vstd::prelude::*;
use crate::bignum::be_value;
use crate::bignum::le_value;
use crate::hashing::count_leading_zero_bits;
use crate::hashing::leading_zero_bits_spec;
use crate::nonce::job_nonce;
use crate::nonce::job_nonce_spec;
use crate::nonce::lemma_job_nonce_injective;
use crate::pow::hash_meets_share_target;
use crate::pow::header_hash;
use crate::pow::sha256d_header;
use crate::pow::DIFFICULTY_BITS;
use crate::rng::mix_spec;
use crate::rng::next_state_spec;
use crate::rng::splitmix64;
use crate::rng::state_after;
use crate::score::Experience;
use crate::score::Score;

verus! {

/// Candidate nonces drawn for every batch, before any hashing.
pub const BLIND_POOL: usize = 8192;
/// Candidates hashed from the top of the ranking, and from the random control.
pub const KEEP: usize = 1024;
/// Seed of the generator that draws the random control.
pub const RANDOM_SEED: u64 = 0x1331_0031_DEAD_0002;
/// Submission identifiers start after this one.
pub const FIRST_SUBMIT_ID: u64 = 1000;

/// The job being mined, with the share target of the pool difficulty.
pub struct LiveJob {
    pub job_id: String,
    pub header: [u8; 80],
    pub extranonce2: String,
    pub ntime: String,
    pub clean_jobs: bool,
    pub target: [u8; 32],
    pub nonce_cursor: u64,
    pub nonce_offset: u32,
}

/// Counters of the live miner; they survive reconnections.
#[derive(Debug, Clone, Copy, PartialEq, Eq, Structural)]
pub struct Runtime {
    pub sequence: u64,
    pub learn_batches: u64,
    pub audit_batches: u64,
    pub learn_samples: u64,
    pub top: Score,
    pub random: Score,
    pub wins: u64,
    pub losses: u64,
    pub ties: u64,
    pub total_live_hashes: u64,
    pub shares_found: u64,
    pub shares_submitted: u64,
    pub shares_accepted: u64,
    pub shares_rejected: u64,
    pub shares_stale: u64,
    pub submit_id: u64,
    pub random_rng: u64,
}

/// A score with every count at zero.
pub open spec fn zero_score() -> Score {
    Score { hashes: 0, successes: 0, lz_sum: 0, best_sum: 0 }
}

impl Runtime {
    /// Fresh counters: nothing mined yet, submission ids from 1001, the
    /// control generator at its seed.
    pub fn new() -> (r: Self)
        ensures
            r == (Runtime {
                sequence: 0,
                learn_batches: 0,
                audit_batches: 0,
                learn_samples: 0,
                top: zero_score(),
                random: zero_score(),
                wins: 0,
                losses: 0,
                ties: 0,
                total_live_hashes: 0,
                shares_found: 0,
                shares_submitted: 0,
                shares_accepted: 0,
                shares_rejected: 0,
                shares_stale: 0,
                submit_id: FIRST_SUBMIT_ID,
                random_rng: RANDOM_SEED,
            }),
    {
        Runtime {
            sequence: 0,
            learn_batches: 0,
            audit_batches: 0,
            learn_samples: 0,
            top: Score { hashes: 0, successes: 0, lz_sum: 0, best_sum: 0 },
            random: Score { hashes: 0, successes: 0, lz_sum: 0, best_sum: 0 },
            wins: 0,
            losses: 0,
            ties: 0,
            total_live_hashes: 0,
            shares_found: 0,
            shares_submitted: 0,
            shares_accepted: 0,
            shares_rejected: 0,
            shares_stale: 0,
            submit_id: FIRST_SUBMIT_ID,
            random_rng: RANDOM_SEED,
        }
    }
}

/// The job's nonce space (2^32 counters) cannot hold another batch.
#[derive(Debug, Clone, Copy, PartialEq, Eq, Structural)]
pub enum BatchError {
    NonceSpaceExhausted,
}

/// Whether batch number `sequence` is an audit: one batch in ten.
pub open spec fn is_audit(sequence: u64) -> bool {
    sequence % 10 == 0
}

/// Audit-ratio law: among any ten consecutive batch numbers exactly one is
/// an audit, so the miner learns on nine batches for each audit.
pub proof fn lemma_one_audit_in_ten(first: u64)
    requires
        first + 9 <= u64::MAX,
    ensures
        exists|k: int| 0 <= k < 10 && #[trigger] is_audit((first + k) as u64),
        forall|a: int, b: int| 0 <= a < 10 && 0 <= b < 10 && #[trigger] is_audit((first + a) as u64)
            && #[trigger] is_audit((first + b) as u64) ==> a == b,
{
    let k = (10 - first % 10) % 10;
    assert(is_audit((first + k) as u64));
}

/// Starts the next batch: advances the batch sequence, then takes the
/// job's next `BLIND_POOL` nonces, counter by counter from the cursor.
/// Refused when those counters would leave the 2^32 nonce space.
pub fn begin_batch(r: &mut Runtime, job: &mut LiveJob) -> (res: Result<(bool, Vec<u32>), BatchError>)
    requires
        old(r).sequence < u64::MAX,
    ensures
        *final(r) == (Runtime { sequence: (old(r).sequence + 1) as u64, ..*old(r) }),
        res is Err <==> old(job).nonce_cursor + BLIND_POOL > 0x1_0000_0000,
        res is Err ==> *final(job) == *old(job),
        res matches Ok((audit, nonces)) ==> {
            &&& audit == is_audit(final(r).sequence)
            &&& audit == (final(r).sequence % 10 == 0)
            &&& nonces@.len() == BLIND_POOL
            &&& forall|i: int| 0 <= i < BLIND_POOL ==> #[trigger] nonces@[i] == job_nonce_spec(
                old(job).nonce_offset,
                (old(job).nonce_cursor + i) as u64,
            )
            &&& forall|i: int, j: int| 0 <= i < j < BLIND_POOL ==> #[trigger] nonces@[i]
                != #[trigger] nonces@[j]
            &&& *final(job) == (LiveJob {
                nonce_cursor: (old(job).nonce_cursor + BLIND_POOL) as u64,
                ..*old(job)
            })
        },
{
    r.sequence = r.sequence + 1;
    let audit = r.sequence % 10 == 0;
    if job.nonce_cursor > 0x1_0000_0000 - BLIND_POOL as u64 {
        return Err(BatchError::NonceSpaceExhausted);
    }
    let cursor = job.nonce_cursor;
    let offset = job.nonce_offset;
    let mut nonces: Vec<u32> = Vec::new();
    let mut i: usize = 0;
    while i < BLIND_POOL
        invariant
            i <= BLIND_POOL,
            cursor + BLIND_POOL <= 0x1_0000_0000,
            nonces@.len() == i,
            forall|k: int| 0 <= k < i ==> #[trigger] nonces@[k] == job_nonce_spec(offset, (cursor + k) as u64),
        decreases BLIND_POOL - i,
    {
        nonces.push(job_nonce(offset, cursor + i as u64));
        i = i + 1;
    }
    assert forall|a: int, b: int| 0 <= a < b < BLIND_POOL implies #[trigger] nonces@[a]
        != #[trigger] nonces@[b] by {
        lemma_job_nonce_injective(offset, (cursor + a) as u64, (cursor + b) as u64);
    }
    job.nonce_cursor = cursor + BLIND_POOL as u64;
    Ok((audit, nonces))
}

/// The middle of the ranking, from which the random control is drawn:
/// ranks `KEEP .. BLIND_POOL - KEEP`.
pub open spec fn middle_ranks() -> Seq<usize> {
    Seq::new((BLIND_POOL - 2 * KEEP) as nat, |i: int| (KEEP + i) as usize)
}

/// Exchanges entries `i` and `j`.
pub open spec fn swap_entries(s: Seq<usize>, i: int, j: int) -> Seq<usize> {
    s.update(i, s[j]).update(j, s[i])
}

/// The middle ranks after the first `k` steps of a Fisher-Yates shuffle
/// driven by the generator seeded with `seed`, and the generator's state:
/// step `i` swaps entry `i` with an entry drawn from `i..`.
pub open spec fn shuffle_steps(seed: u64, k: nat) -> (Seq<usize>, u64)
    decreases k,
{
    if k == 0 {
        (middle_ranks(), seed)
    } else {
        let (m, s) = shuffle_steps(seed, (k - 1) as nat);
        let s1 = next_state_spec(s);
        let i = k - 1;
        let remaining = (BLIND_POOL - 2 * KEEP) - i;
        let j = i + ((mix_spec(s1) as usize) % (remaining as usize));
        (swap_entries(m, i, j), s1)
    }
}

/// The random control: the first `KEEP` middle ranks after `KEEP` shuffle steps.
pub open spec fn control_sample(seed: u64) -> Seq<usize> {
    shuffle_steps(seed, KEEP as nat).0.take(KEEP as int)
}

/// The shuffled ranks are still the middle ranks, each once.
proof fn lemma_shuffle_is_permutation(seed: u64, k: nat)
    requires
        k <= KEEP,
    ensures
        shuffle_steps(seed, k).0.len() == BLIND_POOL - 2 * KEEP,
        shuffle_steps(seed, k).1 == state_after(seed, k),
        forall|x: int| 0 <= x < BLIND_POOL - 2 * KEEP ==> KEEP <= #[trigger] shuffle_steps(seed, k).0[x]
            < BLIND_POOL - KEEP,
        forall|x: int, y: int| 0 <= x < y < BLIND_POOL - 2 * KEEP ==> #[trigger] shuffle_steps(seed, k).0[x]
            != #[trigger] shuffle_steps(seed, k).0[y],
    decreases k,
{
    if k > 0 {
        lemma_shuffle_is_permutation(seed, (k - 1) as nat);
        let (m, s) = shuffle_steps(seed, (k - 1) as nat);
        let s1 = next_state_spec(s);
        let i = k - 1;
        let remaining = (BLIND_POOL - 2 * KEEP) - i;
        let j = i + ((mix_spec(s1) as usize) % (remaining as usize));
        assert(i <= j < BLIND_POOL - 2 * KEEP);
        let m2 = swap_entries(m, i, j);
        assert(shuffle_steps(seed, k).0 == m2);
        assert forall|x: int, y: int| 0 <= x < y < BLIND_POOL - 2 * KEEP implies #[trigger] m2[x]
            != #[trigger] m2[y] by {
            let px = if x == i { j } else if x == j { i } else { x };
            let py = if y == i { j } else if y == j { i } else { y };
            assert(m2[x] == m[px]);
            assert(m2[y] == m[py]);
            assert(px != py);
            if px < py {
                assert(m[px] != m[py]);
            } else {
                assert(m[py] != m[px]);
            }
        }
        assert forall|x: int| 0 <= x < BLIND_POOL - 2 * KEEP implies KEEP <= #[trigger] m2[x]
            < BLIND_POOL - KEEP by {
            let px = if x == i { j } else if x == j { i } else { x };
            assert(m2[x] == m[px]);
        }
    }
}

/// Draws the random control: `KEEP` distinct ranks from the middle of the
/// ranking, by `KEEP` steps of a Fisher-Yates shuffle on the control generator.
pub fn random_control(r: &mut Runtime) -> (idx: Vec<usize>)
    ensures
        idx@ == control_sample(old(r).random_rng),
        *final(r) == (Runtime { random_rng: state_after(old(r).random_rng, KEEP as nat), ..*old(r) }),
        idx@.len() == KEEP,
        forall|x: int| 0 <= x < KEEP ==> KEEP <= #[trigger] idx@[x] < BLIND_POOL - KEEP,
        forall|x: int, y: int| 0 <= x < y < KEEP ==> #[trigger] idx@[x] != #[trigger] idx@[y],
{
    let ghost seed = r.random_rng;
    let mut middle: Vec<usize> = Vec::new();
    let mut k: usize = KEEP;
    while k < BLIND_POOL - KEEP
        invariant
            KEEP <= k <= BLIND_POOL - KEEP,
            middle@.len() == k - KEEP,
            forall|x: int| 0 <= x < k - KEEP ==> #[trigger] middle@[x] == KEEP + x,
        decreases BLIND_POOL - KEEP - k,
    {
        middle.push(k);
        k = k + 1;
    }
    assert(middle@ =~= middle_ranks());
    let mut i: usize = 0;
    while i < KEEP
        invariant
            i <= KEEP,
            (middle@, r.random_rng) == shuffle_steps(seed, i as nat),
            *r == (Runtime { random_rng: r.random_rng, ..*old(r) }),
            seed == old(r).random_rng,
        decreases KEEP - i,
    {
        proof {
            lemma_shuffle_is_permutation(seed, i as nat);
        }
        let remaining = middle.len() - i;
        let x = splitmix64(&mut r.random_rng);
        let j = i + (#[verifier::truncate] (x as usize)) % remaining;
        let a = middle[i];
        let b = middle[j];
        middle.set(i, b);
        middle.set(j, a);
        i = i + 1;
        assert(middle@ =~= shuffle_steps(seed, i as nat).0);
    }
    proof {
        lemma_shuffle_is_permutation(seed, KEEP as nat);
    }
    let mut idx: Vec<usize> = Vec::new();
    let mut t: usize = 0;
    while t < KEEP
        invariant
            t <= KEEP,
            middle@.len() == BLIND_POOL - 2 * KEEP,
            idx@ == middle@.take(t as int),
        decreases KEEP - t,
    {
        idx.push(middle[t]);
        t = t + 1;
        assert(idx@ =~= middle@.take(t as int));
    }
    idx
}

/// The experience of hashing `nonce` in a job's header.
pub open spec fn experience_of(header: Seq<u8>, nonce: u32) -> Experience {
    let lz = leading_zero_bits_spec(header_hash(header, nonce));
    Experience { nonce, lz: lz as u32, success: lz >= DIFFICULTY_BITS }
}

/// Whether `nonce` gives a share: its digest meets the job's share target.
pub open spec fn is_share(job: LiveJob, nonce: u32) -> bool {
    le_value(header_hash(job.header@, nonce)) <= be_value(job.target@)
}

/// Hashes one selected candidate: counts the hash, records its zero bits
/// and whether it is low, and counts a share when it meets the job's target.
/// The caller submits the share when the second result is true.
pub fn hash_candidate(r: &mut Runtime, job: &LiveJob, nonce: u32) -> (res: (Experience, bool))
    requires
        old(r).total_live_hashes < u64::MAX,
        old(r).shares_found < u64::MAX,
    ensures
        res.0 == experience_of(job.header@, nonce),
        res.1 == is_share(*job, nonce),
        *final(r) == (Runtime {
            total_live_hashes: (old(r).total_live_hashes + 1) as u64,
            shares_found: (old(r).shares_found + if res.1 { 1int } else { 0int }) as u64,
            ..*old(r)
        }),
{
    let hash = sha256d_header(&job.header, nonce);
    r.total_live_hashes = r.total_live_hashes + 1;
    let lz = count_leading_zero_bits(&hash);
    let e = Experience { nonce, lz, success: lz >= DIFFICULTY_BITS };
    let share = hash_meets_share_target(&hash, &job.target);
    if share {
        r.shares_found = r.shares_found + 1;
    }
    (e, share)
}

/// Number of successes among experiences.
pub open spec fn successes_of(es: Seq<Experience>) -> nat
    decreases es.len(),
{
    if es.len() == 0 {
        0
    } else {
        successes_of(es.drop_last()) + if es.last().success {
            1nat
        } else {
            0nat
        }
    }
}

/// Sum of the zero-bit counts of experiences.
pub open spec fn lz_total(es: Seq<Experience>) -> nat
    decreases es.len(),
{
    if es.len() == 0 {
        0
    } else {
        lz_total(es.drop_last()) + (es.last().lz as nat)
    }
}

/// Largest zero-bit count among experiences (0 for none).
pub open spec fn lz_best(es: Seq<Experience>) -> nat
    decreases es.len(),
{
    if es.len() == 0 {
        0
    } else {
        let b = lz_best(es.drop_last());
        if b >= es.last().lz {
            b
        } else {
            es.last().lz as nat
        }
    }
}

/// The score of a sequence of experiences, counted one by one.
pub open spec fn score_of(es: Seq<Experience>) -> Score {
    Score {
        hashes: es.len() as u64,
        successes: successes_of(es) as u64,
        lz_sum: lz_total(es) as u64,
        best_sum: lz_best(es) as u64,
    }
}

/// Sums of the first `k` experiences never exceed those of all of them.
proof fn lemma_totals_grow(es: Seq<Experience>, k: int)
    requires
        0 <= k <= es.len(),
    ensures
        successes_of(es.take(k)) <= successes_of(es) <= es.len(),
        lz_total(es.take(k)) <= lz_total(es),
        lz_best(es.take(k)) <= lz_best(es),
        lz_best(es) <= lz_total(es),
    decreases es.len(),
{
    if es.len() > 0 {
        if k < es.len() {
            lemma_totals_grow(es.drop_last(), k);
            assert(es.drop_last().take(k) =~= es.take(k));
        } else {
            assert(es.take(k) =~= es);
            lemma_totals_grow(es.drop_last(), k - 1);
        }
    }
}

/// Scores a sequence of experiences.
fn score_all(es: &Vec<Experience>) -> (s: Score)
    requires
        lz_total(es@) <= u64::MAX,
    ensures
        s == score_of(es@),
{
    let mut s = Score { hashes: 0, successes: 0, lz_sum: 0, best_sum: 0 };
    let mut i: usize = 0;
    proof {
        lemma_totals_grow(es@, es@.len() as int);
    }
    while i < es.len()
        invariant
            i <= es@.len(),
            lz_total(es@) <= u64::MAX,
            s == score_of(es@.take(i as int)),
        decreases es@.len() - i,
    {
        proof {
            lemma_totals_grow(es@, (i + 1) as int);
            assert(es@.take(i + 1).drop_last() =~= es@.take(i as int));
            lemma_totals_grow(es@.take(i + 1), (i + 1) as int);
        }
        let e = es[i];
        s.hashes = s.hashes + 1;
        s.lz_sum = s.lz_sum + e.lz as u64;
        if (e.lz as u64) > s.best_sum {
            s.best_sum = e.lz as u64;
        }
        if e.success {
            s.successes = s.successes + 1;
        }
        i = i + 1;
    }
    assert(es@.take(es@.len() as int) =~= es@);
    s
}

/// How an audit batch ended: the ranked selection found more, fewer, or
/// as many low hashes as the random control.
#[derive(Debug, Clone, Copy, PartialEq, Eq, Structural)]
pub enum AuditOutcome {
    Win,
    Loss,
    Tie,
}

/// The outcome of an audit with scores `top` and `random`.
pub open spec fn audit_outcome(top: Score, random: Score) -> AuditOutcome {
    if top.successes > random.successes {
        AuditOutcome::Win
    } else if random.successes > top.successes {
        AuditOutcome::Loss
    } else {
        AuditOutcome::Tie
    }
}

/// Audit law: an audit is won when the ranked selection found more low
/// hashes (successful experiences) than the random control, lost when it
/// found fewer, and tied when both found as many.
pub proof fn lemma_audit_counts_low_hashes(top: Seq<Experience>, random: Seq<Experience>)
    requires
        top.len() <= u64::MAX,
        random.len() <= u64::MAX,
    ensures
        audit_outcome(score_of(top), score_of(random)) == AuditOutcome::Win <==> successes_of(top)
            > successes_of(random),
        audit_outcome(score_of(top), score_of(random)) == AuditOutcome::Loss <==> successes_of(top)
            < successes_of(random),
        audit_outcome(score_of(top), score_of(random)) == AuditOutcome::Tie <==> successes_of(top)
            == successes_of(random),
{
    lemma_totals_grow(top, top.len() as int);
    lemma_totals_grow(random, random.len() as int);
}

/// `a + b`, field by field.
pub open spec fn score_sum(a: Score, b: Score) -> Score {
    Score {
        hashes: (a.hashes + b.hashes) as u64,
        successes: (a.successes + b.successes) as u64,
        lz_sum: (a.lz_sum + b.lz_sum) as u64,
        best_sum: (a.best_sum + b.best_sum) as u64,
    }
}

/// Whether `a + b` fits, field by field.
pub open spec fn score_sum_fits(a: Score, b: Score) -> bool {
    &&& a.hashes + b.hashes <= u64::MAX
    &&& a.successes + b.successes <= u64::MAX
    &&& a.lz_sum + b.lz_sum <= u64::MAX
    &&& a.best_sum + b.best_sum <= u64::MAX
}

/// Records an audit batch: scores both selections, adds them to the
/// cumulative scores, and counts one win, loss or tie.
pub fn record_audit(r: &mut Runtime, top: &Vec<Experience>, random: &Vec<Experience>) -> (res: (
    Score,
    Score,
    AuditOutcome,
))
    requires
        lz_total(top@) <= u64::MAX,
        lz_total(random@) <= u64::MAX,
        score_sum_fits(old(r).top, score_of(top@)),
        score_sum_fits(old(r).random, score_of(random@)),
        old(r).audit_batches < u64::MAX,
        old(r).wins < u64::MAX,
        old(r).losses < u64::MAX,
        old(r).ties < u64::MAX,
    ensures
        res.0 == score_of(top@),
        res.1 == score_of(random@),
        res.2 == audit_outcome(res.0, res.1),
        res.2 == AuditOutcome::Win <==> successes_of(top@) > successes_of(random@),
        res.2 == AuditOutcome::Loss <==> successes_of(top@) < successes_of(random@),
        res.2 == AuditOutcome::Tie <==> successes_of(top@) == successes_of(random@),
        *final(r) == (Runtime {
            audit_batches: (old(r).audit_batches + 1) as u64,
            top: score_sum(old(r).top, res.0),
            random: score_sum(old(r).random, res.1),
            wins: (old(r).wins + if res.2 == AuditOutcome::Win { 1int } else { 0int }) as u64,
            losses: (old(r).losses + if res.2 == AuditOutcome::Loss { 1int } else { 0int }) as u64,
            ties: (old(r).ties + if res.2 == AuditOutcome::Tie { 1int } else { 0int }) as u64,
            ..*old(r)
        }),
{
    r.audit_batches = r.audit_batches + 1;
    let ts = score_all(top);
    let rs = score_all(random);
    proof {
        lemma_totals_grow(top@, top@.len() as int);
        lemma_totals_grow(random@, random@.len() as int);
        assert(top@.len() == top.len() && random@.len() == random.len());
    }
    crate::score::add_score(&mut r.top, &ts);
    crate::score::add_score(&mut r.random, &rs);
    let outcome = if ts.successes > rs.successes {
        r.wins = r.wins + 1;
        AuditOutcome::Win
    } else if rs.successes > ts.successes {
        r.losses = r.losses + 1;
        AuditOutcome::Loss
    } else {
        r.ties = r.ties + 1;
        AuditOutcome::Tie
    };
    (ts, rs, outcome)
}

/// Records a learning batch: counts it and its samples, and returns the
/// number of low hashes and the best zero-bit count over both selections.
pub fn record_learn(r: &mut Runtime, top: &Vec<Experience>, random: &Vec<Experience>) -> (res: (
    u64,
    u32,
))
    requires
        old(r).learn_batches < u64::MAX,
        old(r).learn_samples + top@.len() + random@.len() <= u64::MAX,
        top@.len() + random@.len() <= usize::MAX,
    ensures
        res.0 == successes_of(top@ + random@),
        res.1 == lz_best(top@ + random@),
        *final(r) == (Runtime {
            learn_batches: (old(r).learn_batches + 1) as u64,
            learn_samples: (old(r).learn_samples + top@.len() + random@.len()) as u64,
            ..*old(r)
        }),
{
    r.learn_batches = r.learn_batches + 1;
    let ghost all = top@ + random@;
    let mut positives: u64 = 0;
    let mut best: u32 = 0;
    let n = top.len() + random.len();
    let mut i: usize = 0;
    while i < n
        invariant
            n == all.len(),
            all == top@ + random@,
            i <= n,
            positives == successes_of(all.take(i as int)),
            positives <= i,
            best == lz_best(all.take(i as int)),
        decreases n - i,
    {
        let e = if i < top.len() {
            top[i]
        } else {
            random[i - top.len()]
        };
        assert(e == all[i as int]);
        assert(all.take(i + 1).drop_last() =~= all.take(i as int));
        if e.success {
            positives = positives + 1;
        }
        if e.lz > best {
            best = e.lz;
        }
        i = i + 1;
    }
    assert(all.take(n as int) =~= all);
    r.learn_samples = r.learn_samples + n as u64;
    (positives, best)
}

/// Takes the next submission id for a share.
pub fn claim_submit_id(r: &mut Runtime) -> (id: u64)
    requires
        old(r).submit_id < u64::MAX,
    ensures
        id == old(r).submit_id + 1,
        *final(r) == (Runtime { submit_id: id, ..*old(r) }),
{
    r.submit_id = r.submit_id + 1;
    r.submit_id
}

/// Counts a share as submitted, once it has been sent.
pub fn note_submitted(r: &mut Runtime)
    requires
        old(r).shares_submitted < u64::MAX,
    ensures
        *final(r) == (Runtime { shares_submitted: (old(r).shares_submitted + 1) as u64, ..*old(r) }),
{
    r.shares_submitted = r.shares_submitted + 1;
}

/// The nonce space split into eight regions, scanned in chunks.
pub const REGION_COUNT: u64 = 8;
pub const REGION_SIZE: u64 = 0x2000_0000;
pub const POW_CHUNK: u64 = 65_536;

/// Where a region-ordered scan of a job's nonce space stands: the order of
/// the regions, the region being scanned and how far into it.
#[derive(Debug, Clone, Copy)]
pub struct RegionScan {
    pub region_order: [u8; 8],
    pub region_index: usize,
    pub region_cursor: u64,
}

/// The next step of a region scan.
#[derive(Debug, Clone, Copy, PartialEq, Eq, Structural)]
pub enum ChunkPlan {
    /// Every region has been scanned.
    Exhausted,
    /// The region was finished; the scan moved to the next one.
    NextRegion,
    /// Hash the `count` nonces from `start` (as 32-bit values).
    Scan { start: u64, count: u64 },
}

/// Plans the next chunk: when the current region is used up, move to the
/// next region (or report the scan exhausted after the eighth); otherwise
/// scan up to `POW_CHUNK` nonces from the cursor, and advance the cursor.
pub fn plan_chunk(scan: &mut RegionScan) -> (p: ChunkPlan)
    requires
        old(scan).region_index < 8,
    ensures
        ({
            let region = old(scan).region_order@[old(scan).region_index as int] as u64;
            let remaining: int = if old(scan).region_cursor >= REGION_SIZE {
                0
            } else {
                REGION_SIZE - old(scan).region_cursor
            };
            if remaining == 0 {
                &&& final(scan).region_index == old(scan).region_index + 1
                &&& final(scan).region_cursor == 0
                &&& final(scan).region_order == old(scan).region_order
                &&& p == if old(scan).region_index + 1 >= 8 {
                    ChunkPlan::Exhausted
                } else {
                    ChunkPlan::NextRegion
                }
            } else {
                let count: int = if remaining < POW_CHUNK {
                    remaining
                } else {
                    POW_CHUNK as int
                };
                &&& p == ChunkPlan::Scan {
                    start: (region * REGION_SIZE + old(scan).region_cursor) as u64,
                    count: count as u64,
                }
                &&& *final(scan) == (RegionScan {
                    region_cursor: (old(scan).region_cursor + count) as u64,
                    ..*old(scan)
                })
            }
        }),
{
    let region = scan.region_order[scan.region_index] as u64;
    let region_start = region * REGION_SIZE;
    let remaining = REGION_SIZE.saturating_sub(scan.region_cursor);
    if remaining == 0 {
        scan.region_index = scan.region_index + 1;
        scan.region_cursor = 0;
        if scan.region_index >= 8 {
            return ChunkPlan::Exhausted;
        }
        return ChunkPlan::NextRegion;
    }
    let count = if remaining < POW_CHUNK {
        remaining
    } else {
        POW_CHUNK
    };
    let start = region_start + scan.region_cursor;
    scan.region_cursor = scan.region_cursor + count;
    ChunkPlan::Scan { start, count }
}

} // verus!
