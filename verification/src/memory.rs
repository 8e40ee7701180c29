//! Count tables that learn which figure follows which context.
use vstd::prelude::*;
use crate::hashing::sha256;
use crate::hashing::sha256_spec;
use crate::bignum::le_value;

verus! {

/// Output cells, contexts and states of the deep memory.
pub const DEEP_OUTPUT_CELLS: usize = 85;
pub const CONTEXTS: usize = 512;
pub const STATES: usize = 8;
pub const COUNT_LEN: usize = 348_160;

/// Flat index of the counter for `(output_cell, context, state)`.
pub open spec fn count_index_spec(output_cell: nat, context: nat, state: nat) -> nat {
    (output_cell * 512 + context) * 8 + state
}

/// Counts, per output cell and input context, how often each figure appeared.
pub struct DeepMem {
    pub counts: Vec<u32>,
    pub totals: Vec<u32>,
}

impl DeepMem {
    pub open spec fn wf(&self) -> bool {
        &&& self.counts@.len() == COUNT_LEN
        &&& self.totals@.len() == DEEP_OUTPUT_CELLS * CONTEXTS
    }

    pub fn new() -> (m: Self)
        ensures
            m.wf(),
            forall|i: int| 0 <= i < COUNT_LEN ==> #[trigger] m.counts@[i] == 0,
            forall|i: int| 0 <= i < DEEP_OUTPUT_CELLS * CONTEXTS ==> #[trigger] m.totals@[i] == 0,
    {
        Self { counts: vec![0u32; COUNT_LEN], totals: vec![0u32; DEEP_OUTPUT_CELLS * CONTEXTS] }
    }

    pub fn count_index(output_cell: usize, context: usize, state: usize) -> (r: usize)
        requires
            count_index_spec(output_cell as nat, context as nat, state as nat) <= usize::MAX,
        ensures
            r == count_index_spec(output_cell as nat, context as nat, state as nat),
    {
        assert(output_cell * 512 + context <= (output_cell * 512 + context) * 8 + state)
            by (nonlinear_arith);
        ((output_cell * CONTEXTS + context) * STATES) + state
    }

    pub fn total_index(output_cell: usize, context: usize) -> (r: usize)
        requires
            output_cell * 512 + context <= usize::MAX,
        ensures
            r == output_cell * 512 + context,
    {
        output_cell * CONTEXTS + context
    }

    /// Records that `state` followed `context` at `output_cell` (saturating counts).
    pub fn observe(&mut self, output_cell: usize, context: usize, state: usize)
        requires
            old(self).wf(),
            output_cell < DEEP_OUTPUT_CELLS,
            context < CONTEXTS,
            state < STATES,
        ensures
            final(self).wf(),
            ({
                let ci = count_index_spec(output_cell as nat, context as nat, state as nat) as int;
                let ti = output_cell * 512 + context;
                &&& final(self).counts@ == old(self).counts@.update(ci,
                    old(self).counts@[ci].saturating_add(1))
                &&& final(self).totals@ == old(self).totals@.update(ti,
                    old(self).totals@[ti].saturating_add(1))
            }),
    {
        proof {
            lemma_count_index_bounds(output_cell as nat, context as nat, state as nat);
        }
        let ci = Self::count_index(output_cell, context, state);
        let ti = Self::total_index(output_cell, context);
        let c = self.counts[ci].saturating_add(1);
        self.counts.set(ci, c);
        let t = self.totals[ti].saturating_add(1);
        self.totals.set(ti, t);
    }
}

/// Counter law: every (cell, context, state) triple has its own counter,
/// inside the table.
pub proof fn lemma_count_index_bounds(c: nat, x: nat, s: nat)
    requires
        c < 85,
        x < 512,
        s < 8,
    ensures
        count_index_spec(c, x, s) < COUNT_LEN,
        c * 512 + x < 85 * 512,
{
    assert(count_index_spec(c, x, s) < COUNT_LEN && c * 512 + x < 85 * 512) by (nonlinear_arith)
        requires
            c < 85,
            x < 512,
            s < 8,
    ;
}

/// Counter law: distinct triples never share a counter.
pub proof fn lemma_count_index_injective(c1: nat, x1: nat, s1: nat, c2: nat, x2: nat, s2: nat)
    requires
        x1 < 512,
        s1 < 8,
        x2 < 512,
        s2 < 8,
        count_index_spec(c1, x1, s1) == count_index_spec(c2, x2, s2),
    ensures
        c1 == c2 && x1 == x2 && s1 == s2,
{
    assert(c1 == c2 && x1 == x2 && s1 == s2) by (nonlinear_arith)
        requires
            x1 < 512,
            s1 < 8,
            x2 < 512,
            s2 < 8,
            (c1 * 512 + x1) * 8 + s1 == (c2 * 512 + x2) * 8 + s2,
    ;
}

/// Online counts of the figure that won, per job context.
pub struct OnlineMem {
    pub counts: Vec<u64>,
    pub totals: Vec<u64>,
}

impl OnlineMem {
    pub open spec fn wf(&self) -> bool {
        &&& self.counts@.len() == CONTEXTS * STATES
        &&& self.totals@.len() == CONTEXTS
    }

    pub fn new() -> (m: Self)
        ensures
            m.wf(),
            forall|i: int| 0 <= i < CONTEXTS * STATES ==> #[trigger] m.counts@[i] == 0,
            forall|i: int| 0 <= i < CONTEXTS ==> #[trigger] m.totals@[i] == 0,
    {
        Self { counts: vec![0u64; CONTEXTS * STATES], totals: vec![0u64; CONTEXTS] }
    }

    /// Records that `reality` won in `context` (saturating counts).
    pub fn observe(&mut self, context: usize, reality: usize)
        requires
            old(self).wf(),
            context < CONTEXTS,
            reality < STATES,
        ensures
            final(self).wf(),
            final(self).counts@ == old(self).counts@.update(context * 8 + reality,
                old(self).counts@[context * 8 + reality].saturating_add(1)),
            final(self).totals@ == old(self).totals@.update(context as int,
                old(self).totals@[context as int].saturating_add(1)),
    {
        let i = context * STATES + reality;
        let c = self.counts[i].saturating_add(1);
        self.counts.set(i, c);
        let t = self.totals[context].saturating_add(1);
        self.totals.set(context, t);
    }

    /// Replays one journal event: checks that the context and the winning
    /// figure are in range, tells whether the journal's count of earlier
    /// observations of the context matches the memory, and records the win.
    pub fn replay_event(&mut self, context: u64, winner: u64, observations_before: u64) -> (r:
        Result<bool, ReplayError>)
        requires
            old(self).wf(),
        ensures
            final(self).wf(),
            r is Err <==> (context >= 512 || winner >= 8),
            r is Err ==> *final(self) == *old(self),
            r matches Ok(matches) ==> {
                &&& matches == (old(self).totals@[context as int] == observations_before)
                &&& final(self).counts@ == old(self).counts@.update(context * 8 + winner,
                    old(self).counts@[context * 8 + winner].saturating_add(1))
                &&& final(self).totals@ == old(self).totals@.update(context as int,
                    old(self).totals@[context as int].saturating_add(1))
            },
    {
        if context >= CONTEXTS as u64 || winner >= STATES as u64 {
            return Err(ReplayError::OutOfRange);
        }
        let c = context as usize;
        let matches = self.totals[c] == observations_before;
        self.observe(c, winner as usize);
        Ok(matches)
    }
}

/// A journal event names a context or figure that does not exist.
#[derive(Debug, Clone, Copy, PartialEq, Eq, Structural)]
pub enum ReplayError {
    OutOfRange,
}

/// Buckets of the fingerprint models.
pub const BUCKETS: usize = 4096;

/// Counts, per header-fingerprint bucket, how often each figure appeared.
pub struct BucketModel {
    pub counts: Vec<[u64; 8]>,
    pub totals: Vec<u64>,
}

impl BucketModel {
    pub open spec fn wf(&self) -> bool {
        &&& self.counts@.len() == BUCKETS
        &&& self.totals@.len() == BUCKETS
    }

    pub fn new() -> (m: Self)
        ensures
            m.wf(),
            forall|b: int, s: int| 0 <= b < BUCKETS && 0 <= s < 8 ==> #[trigger] m.counts@[b]@[s]
                == 0,
            forall|b: int| 0 <= b < BUCKETS ==> #[trigger] m.totals@[b] == 0,
    {
        let mut counts: Vec<[u64; 8]> = Vec::new();
        let mut i: usize = 0;
        while i < BUCKETS
            invariant
                i <= BUCKETS,
                counts@.len() == i,
                forall|b: int, s: int| 0 <= b < i && 0 <= s < 8 ==> #[trigger] counts@[b]@[s] == 0,
            decreases BUCKETS - i,
        {
            counts.push([0u64; 8]);
            i = i + 1;
        }
        Self { counts, totals: vec![0u64; BUCKETS] }
    }

    /// Records that figure `target` appeared in `bucket`.
    pub fn update(&mut self, bucket: usize, target: usize)
        requires
            old(self).wf(),
            bucket < BUCKETS,
            target < 8,
            old(self).counts@[bucket as int]@[target as int] < u64::MAX,
            old(self).totals@[bucket as int] < u64::MAX,
        ensures
            final(self).wf(),
            final(self).counts@ == old(self).counts@.update(bucket as int,
                final(self).counts@[bucket as int]),
            final(self).counts@[bucket as int]@ == old(self).counts@[bucket as int]@.update(
                target as int, (old(self).counts@[bucket as int]@[target as int] + 1) as u64),
            final(self).totals@ == old(self).totals@.update(bucket as int,
                (old(self).totals@[bucket as int] + 1) as u64),
    {
        let mut row = self.counts[bucket];
        row[target] = row[target] + 1;
        self.counts.set(bucket, row);
        let t = self.totals[bucket] + 1;
        self.totals.set(bucket, t);
    }
}

/// Which header fields a fingerprint model reads.
#[derive(Debug, Clone, Copy, PartialEq, Eq, Structural)]
pub enum Model {
    Prior,
    Version,
    Merkle,
    Time,
    PrevHash,
    VersionMerkle,
    VersionTime,
    All,
}

impl Model {
    pub open spec fn name_spec(self) -> Seq<char> {
        match self {
            Model::Prior => "PRIOR"@,
            Model::Version => "VERSION"@,
            Model::Merkle => "MERKLE"@,
            Model::Time => "TIME"@,
            Model::PrevHash => "PREVHASH"@,
            Model::VersionMerkle => "VERSION+MERKLE"@,
            Model::VersionTime => "VERSION+TIME"@,
            Model::All => "ALL"@,
        }
    }

    pub fn name(self) -> (r: &'static str)
        ensures
            r@ == self.name_spec(),
    {
        match self {
            Model::Prior => "PRIOR",
            Model::Version => "VERSION",
            Model::Merkle => "MERKLE",
            Model::Time => "TIME",
            Model::PrevHash => "PREVHASH",
            Model::VersionMerkle => "VERSION+MERKLE",
            Model::VersionTime => "VERSION+TIME",
            Model::All => "ALL",
        }
    }
}

/// The bucket of some bytes: the first eight bytes of their SHA-256,
/// read little-endian, modulo the number of buckets.
pub open spec fn bucket_of(data: Seq<u8>) -> nat {
    le_value(sha256_spec(data).take(8)) % (BUCKETS as nat)
}

/// The header bytes a model fingerprints (the nonce, bytes 76..80, never).
pub open spec fn model_bytes(model: Model, h: Seq<u8>) -> Seq<u8> {
    match model {
        Model::Prior => Seq::empty(),
        Model::Version => h.subrange(0, 4),
        Model::Merkle => h.subrange(36, 68),
        Model::Time => h.subrange(68, 72),
        Model::PrevHash => h.subrange(4, 36),
        Model::VersionMerkle => h.subrange(0, 4) + h.subrange(36, 68),
        Model::VersionTime => h.subrange(0, 4) + h.subrange(68, 72),
        Model::All => h.subrange(0, 76),
    }
}

/// Field law: each model fingerprints the header fields its name gives,
/// at their places in the 80-byte header: nVersion 0..4, the previous
/// block hash 4..36, the Merkle root 36..68, nTime 68..72, and everything
/// before the nonce 0..76; the prior reads nothing.
pub proof fn lemma_models_read_their_fields(h: Seq<u8>)
    requires
        h.len() == 80,
    ensures
        model_bytes(Model::Prior, h).len() == 0,
        model_bytes(Model::Version, h) == h.subrange(0, 4),
        model_bytes(Model::PrevHash, h) == h.subrange(4, 36),
        model_bytes(Model::Merkle, h) == h.subrange(36, 68),
        model_bytes(Model::Time, h) == h.subrange(68, 72),
        model_bytes(Model::VersionMerkle, h) == h.subrange(0, 4) + h.subrange(36, 68),
        model_bytes(Model::VersionTime, h) == h.subrange(0, 4) + h.subrange(68, 72),
        model_bytes(Model::All, h) == h.subrange(0, 76),
{
}

/// The bucket of the concatenation of some byte strings.
pub fn hash_bucket(data: &Vec<u8>) -> (r: usize)
    ensures
        r == bucket_of(data@),
        r < BUCKETS,
{
    let out = sha256(data.as_slice());
    digest_bucket(&out)
}

/// The bucket of a digest: its first eight bytes, read little-endian,
/// modulo the number of buckets.
pub fn digest_bucket(out: &[u8; 32]) -> (r: usize)
    ensures
        r == le_value(out@.take(8)) % (BUCKETS as nat),
        r < BUCKETS,
{
    let mut x: u64 = 0;
    let mut i: usize = 8;
    while i > 0
        invariant
            i <= 8,
            x as nat == crate::bignum::be_value(out@.take(8).reverse().take(8 - i)),
            x < crate::bignum::pow256((8 - i) as nat),
        decreases i,
    {
        i = i - 1;
        proof {
            let pre = out@.take(8).reverse().take(7 - i);
            assert(out@.take(8).reverse().take(8 - i).drop_last() =~= pre);
            assert(out@.take(8).reverse().take(8 - i).last() == out@[i as int]);
            reveal_with_fuel(crate::bignum::pow256, 9);
            crate::bignum::lemma_pow256_pos((7 - i) as nat);
            assert(x * 256 + out@[i as int] < crate::bignum::pow256((8 - i) as nat)) by (nonlinear_arith)
                requires
                    x < crate::bignum::pow256((7 - i) as nat),
                    out@[i as int] < 256,
                    crate::bignum::pow256((8 - i) as nat) == 256 * crate::bignum::pow256((7 - i) as nat),
            ;
            assert(crate::bignum::pow256(8) == 0x1_0000_0000_0000_0000);
        }
        x = x * 256 + out[i] as u64;
    }
    assert(out@.take(8).reverse().take(8) =~= out@.take(8).reverse());
    (x % 4096) as usize
}

/// The fingerprint bucket that a model assigns to a header.
pub fn bucket_for(model: Model, h: &[u8; 80]) -> (r: usize)
    ensures
        model == Model::Prior ==> r == 0,
        model != Model::Prior ==> r == bucket_of(model_bytes(model, h@)),
        model == Model::Version ==> r == bucket_of(h@.subrange(0, 4)),
        model == Model::PrevHash ==> r == bucket_of(h@.subrange(4, 36)),
        model == Model::Merkle ==> r == bucket_of(h@.subrange(36, 68)),
        model == Model::Time ==> r == bucket_of(h@.subrange(68, 72)),
        model == Model::VersionMerkle ==> r == bucket_of(h@.subrange(0, 4) + h@.subrange(36, 68)),
        model == Model::VersionTime ==> r == bucket_of(h@.subrange(0, 4) + h@.subrange(68, 72)),
        model == Model::All ==> r == bucket_of(h@.subrange(0, 76)),
        r < BUCKETS,
{
    let (a, b, c, d) = match model {
        Model::Prior => {
            return 0;
        },
        Model::Version => (0usize, 4usize, 0usize, 0usize),
        Model::Merkle => (36, 68, 0, 0),
        Model::Time => (68, 72, 0, 0),
        Model::PrevHash => (4, 36, 0, 0),
        Model::VersionMerkle => (0, 4, 36, 68),
        Model::VersionTime => (0, 4, 68, 72),
        Model::All => (0, 76, 0, 0),
    };
    let mut data: Vec<u8> = Vec::new();
    let mut i = a;
    while i < b
        invariant
            a <= i <= b <= 80,
            data@ == h@.subrange(a as int, i as int),
        decreases b - i,
    {
        data.push(h[i]);
        i = i + 1;
        assert(data@ =~= h@.subrange(a as int, i as int));
    }
    let ghost first = data@;
    let mut j = c;
    while j < d
        invariant
            c <= j <= d <= 80,
            data@ == first + h@.subrange(c as int, j as int),
        decreases d - j,
    {
        data.push(h[j]);
        j = j + 1;
        assert(data@ =~= first + h@.subrange(c as int, j as int));
    }
    assert(data@ =~= model_bytes(model, h@));
    hash_bucket(&data)
}

/// Hashes spent on each job: every state class gets the same budget.
pub const TOTAL_SHA_PER_JOB: u64 = 512;

/// Tallies of the pool-learning runs (the reward sum is kept elsewhere).
#[derive(Debug, Clone, Copy, PartialEq, Eq, Structural)]
pub struct RuntimeStats {
    pub jobs: u64,
    pub sha256d: u64,
    pub mature_predictions: u64,
    pub correct_predictions: u64,
    pub errors: u64,
    pub passes: u64,
    pub lz8_x1331: u64,
    pub lz8_control: u64,
    pub pool_target_x1331: u64,
    pub pool_target_control: u64,
}

impl RuntimeStats {
    pub fn new() -> (s: Self)
        ensures
            s == (RuntimeStats {
                jobs: 0,
                sha256d: 0,
                mature_predictions: 0,
                correct_predictions: 0,
                errors: 0,
                passes: 0,
                lz8_x1331: 0,
                lz8_control: 0,
                pool_target_x1331: 0,
                pool_target_control: 0,
            }),
    {
        RuntimeStats {
            jobs: 0,
            sha256d: 0,
            mature_predictions: 0,
            correct_predictions: 0,
            errors: 0,
            passes: 0,
            lz8_x1331: 0,
            lz8_control: 0,
            pool_target_x1331: 0,
            pool_target_control: 0,
        }
    }
}

/// The tallies after one job: one more job and its hashes; a collapsed
/// (mature, confident) prediction counts as correct or as an error, any
/// other job as a pass; the low hashes and target hits of the predicted and
/// the control class are added to their arms.
pub open spec fn job_recorded(
    s: RuntimeStats,
    collapse: bool,
    correct: bool,
    sha: u64,
    lz8_x: u64,
    lz8_c: u64,
    hits_x: u64,
    hits_c: u64,
) -> RuntimeStats {
    RuntimeStats {
        jobs: (s.jobs + 1) as u64,
        sha256d: (s.sha256d + sha) as u64,
        mature_predictions: (s.mature_predictions + if collapse { 1int } else { 0int }) as u64,
        correct_predictions: (s.correct_predictions + if collapse && correct { 1int } else { 0int }) as u64,
        errors: (s.errors + if collapse && !correct { 1int } else { 0int }) as u64,
        passes: (s.passes + if collapse { 0int } else { 1int }) as u64,
        lz8_x1331: (s.lz8_x1331 + lz8_x) as u64,
        lz8_control: (s.lz8_control + lz8_c) as u64,
        pool_target_x1331: (s.pool_target_x1331 + hits_x) as u64,
        pool_target_control: (s.pool_target_control + hits_c) as u64,
    }
}

/// Whether recording a job keeps every tally within a `u64`.
pub open spec fn job_fits(s: RuntimeStats, sha: u64, lz8_x: u64, lz8_c: u64, hits_x: u64, hits_c: u64) -> bool {
    &&& s.jobs < u64::MAX
    &&& s.sha256d + sha <= u64::MAX
    &&& s.mature_predictions < u64::MAX
    &&& s.correct_predictions < u64::MAX
    &&& s.errors < u64::MAX
    &&& s.passes < u64::MAX
    &&& s.lz8_x1331 + lz8_x <= u64::MAX
    &&& s.lz8_control + lz8_c <= u64::MAX
    &&& s.pool_target_x1331 + hits_x <= u64::MAX
    &&& s.pool_target_control + hits_c <= u64::MAX
}

/// Records one job in the tallies.
pub fn record_job(
    stats: &mut RuntimeStats,
    collapse: bool,
    correct: bool,
    sha: u64,
    lz8_x: u64,
    lz8_c: u64,
    hits_x: u64,
    hits_c: u64,
)
    requires
        job_fits(*old(stats), sha, lz8_x, lz8_c, hits_x, hits_c),
    ensures
        *final(stats) == job_recorded(*old(stats), collapse, correct, sha, lz8_x, lz8_c, hits_x, hits_c),
{
    stats.lz8_x1331 = stats.lz8_x1331 + lz8_x;
    stats.lz8_control = stats.lz8_control + lz8_c;
    stats.pool_target_x1331 = stats.pool_target_x1331 + hits_x;
    stats.pool_target_control = stats.pool_target_control + hits_c;
    stats.jobs = stats.jobs + 1;
    stats.sha256d = stats.sha256d + sha;
    if collapse {
        stats.mature_predictions = stats.mature_predictions + 1;
        if correct {
            stats.correct_predictions = stats.correct_predictions + 1;
        } else {
            stats.errors = stats.errors + 1;
        }
    } else {
        stats.passes = stats.passes + 1;
    }
}

/// Entry `i` of a journal array, or 0 when the array, the entry or its
/// number is missing.
pub open spec fn journal_entry(a: Option<Seq<Option<u64>>>, i: u64) -> u64 {
    match a {
        Some(v) => if i < v.len() {
            match v[i as int] {
                Some(x) => x,
                None => 0,
            }
        } else {
            0
        },
        None => 0,
    }
}

fn entry_of(a: &Option<Vec<Option<u64>>>, i: u64) -> (r: u64)
    ensures
        r == journal_entry(
            match a {
                Some(v) => Some(v@),
                None => None,
            },
            i,
        ),
{
    match a {
        Some(v) => if i < v.len() as u64 {
            match v[i as usize] {
                Some(x) => x,
                None => 0,
            }
        } else {
            0
        },
        None => 0,
    }
}

/// The fields of a journal event that the tallies read; a missing flag
/// reads as false, a missing budget as the full budget of a job, a missing
/// state as 0.
pub struct JournalEvent {
    pub collapse: Option<bool>,
    pub correct: Option<bool>,
    pub sha_budget: Option<u64>,
    pub predicted_state: Option<u64>,
    pub control_state: Option<u64>,
    pub state_lz8: Option<Vec<Option<u64>>>,
    pub state_target_hits: Option<Vec<Option<u64>>>,
}

/// An optional array as a sequence.
pub open spec fn array_view(a: Option<Vec<Option<u64>>>) -> Option<Seq<Option<u64>>> {
    match a {
        Some(v) => Some(v@),
        None => None,
    }
}

/// The tallies after replaying a journal event.
pub open spec fn event_recorded(s: RuntimeStats, e: JournalEvent) -> RuntimeStats {
    let p = match e.predicted_state {
        Some(x) => x,
        None => 0u64,
    };
    let c = match e.control_state {
        Some(x) => x,
        None => 0u64,
    };
    job_recorded(
        s,
        e.collapse == Some(true),
        e.correct == Some(true),
        match e.sha_budget {
            Some(b) => b,
            None => TOTAL_SHA_PER_JOB,
        },
        journal_entry(array_view(e.state_lz8), p),
        journal_entry(array_view(e.state_lz8), c),
        journal_entry(array_view(e.state_target_hits), p),
        journal_entry(array_view(e.state_target_hits), c),
    )
}

/// Whether recording a job keeps every tally within a `u64`.
pub fn fits_job(s: &RuntimeStats, sha: u64, lz8_x: u64, lz8_c: u64, hits_x: u64, hits_c: u64) -> (r: bool)
    ensures
        r == job_fits(*s, sha, lz8_x, lz8_c, hits_x, hits_c),
{
    s.jobs < u64::MAX && s.sha256d.checked_add(sha).is_some() && s.mature_predictions < u64::MAX
        && s.correct_predictions < u64::MAX && s.errors < u64::MAX && s.passes < u64::MAX
        && s.lz8_x1331.checked_add(lz8_x).is_some() && s.lz8_control.checked_add(lz8_c).is_some()
        && s.pool_target_x1331.checked_add(hits_x).is_some() && s.pool_target_control.checked_add(
        hits_c,
    ).is_some()
}

/// Replays the tallies of one journal event. Returns false, changing
/// nothing, when a tally would leave the range of a `u64`.
pub fn replay_stats(stats: &mut RuntimeStats, e: &JournalEvent) -> (r: bool)
    ensures
        ({
            let p = match e.predicted_state {
                Some(x) => x,
                None => 0u64,
            };
            let c = match e.control_state {
                Some(x) => x,
                None => 0u64,
            };
            r == job_fits(
                *old(stats),
                match e.sha_budget {
                    Some(b) => b,
                    None => TOTAL_SHA_PER_JOB,
                },
                journal_entry(array_view(e.state_lz8), p),
                journal_entry(array_view(e.state_lz8), c),
                journal_entry(array_view(e.state_target_hits), p),
                journal_entry(array_view(e.state_target_hits), c),
            )
        }),
        r ==> *final(stats) == event_recorded(*old(stats), *e),
        !r ==> *final(stats) == *old(stats),
{
    let p = match e.predicted_state {
        Some(x) => x,
        None => 0,
    };
    let c = match e.control_state {
        Some(x) => x,
        None => 0,
    };
    let sha = match e.sha_budget {
        Some(b) => b,
        None => TOTAL_SHA_PER_JOB,
    };
    let lz8_x = entry_of(&e.state_lz8, p);
    let lz8_c = entry_of(&e.state_lz8, c);
    let hits_x = entry_of(&e.state_target_hits, p);
    let hits_c = entry_of(&e.state_target_hits, c);
    if !fits_job(stats, sha, lz8_x, lz8_c, hits_x, hits_c) {
        return false;
    }
    record_job(
        stats,
        e.collapse == Some(true),
        e.correct == Some(true),
        sha,
        lz8_x,
        lz8_c,
        hits_x,
        hits_c,
    );
    true
}

/// How decisive a memory was: of the evaluated contexts, how many kept all
/// eight states (a pass), four, two or one, whether the actual state was
/// among those kept, and the sum of the numbers kept.
#[derive(Debug, Clone, Copy, PartialEq, Eq, Structural)]
pub struct CollapseMetrics {
    pub evaluated: u64,
    pub pass: u64,
    pub k4: u64,
    pub k2: u64,
    pub k1: u64,
    pub retained_actual: u64,
    pub k_sum: u64,
}

impl CollapseMetrics {
    pub fn new() -> (m: Self)
        ensures
            m == (CollapseMetrics { evaluated: 0, pass: 0, k4: 0, k2: 0, k1: 0, retained_actual: 0, k_sum: 0 }),
    {
        CollapseMetrics { evaluated: 0, pass: 0, k4: 0, k2: 0, k1: 0, retained_actual: 0, k_sum: 0 }
    }

    /// Counts one decision that kept the states `kept` (8, 4, 2 or 1 of
    /// them), for a context whose actual state was `actual`.
    pub fn observe(&mut self, kept: &Vec<u8>, actual: u8)
        requires
            kept@.len() == 8 || kept@.len() == 4 || kept@.len() == 2 || kept@.len() == 1,
            old(self).evaluated < u64::MAX,
            old(self).pass < u64::MAX,
            old(self).k4 < u64::MAX,
            old(self).k2 < u64::MAX,
            old(self).k1 < u64::MAX,
            old(self).retained_actual < u64::MAX,
            old(self).k_sum + 8 <= u64::MAX,
        ensures
            *final(self) == (CollapseMetrics {
                evaluated: (old(self).evaluated + 1) as u64,
                pass: (old(self).pass + if kept@.len() == 8 { 1int } else { 0int }) as u64,
                k4: (old(self).k4 + if kept@.len() == 4 { 1int } else { 0int }) as u64,
                k2: (old(self).k2 + if kept@.len() == 2 { 1int } else { 0int }) as u64,
                k1: (old(self).k1 + if kept@.len() == 1 { 1int } else { 0int }) as u64,
                retained_actual: (old(self).retained_actual + if kept@.contains(actual) { 1int } else { 0int }) as u64,
                k_sum: (old(self).k_sum + kept@.len()) as u64,
            }),
    {
        self.evaluated = self.evaluated + 1;
        let k = kept.len();
        self.k_sum = self.k_sum + k as u64;
        if k == 8 {
            self.pass = self.pass + 1;
        } else if k == 4 {
            self.k4 = self.k4 + 1;
        } else if k == 2 {
            self.k2 = self.k2 + 1;
        } else {
            self.k1 = self.k1 + 1;
        }
        let mut found = false;
        let mut i: usize = 0;
        while i < k
            invariant
                k == kept@.len(),
                i <= k,
                found == exists|j: int| 0 <= j < i && kept@[j] == actual,
            decreases k - i,
        {
            if kept[i] == actual {
                found = true;
            }
            i = i + 1;
        }
        if found {
            self.retained_actual = self.retained_actual + 1;
        }
    }
}

/// The eight state counts of context `ctx`, added up.
pub open spec fn row_sum(counts: Seq<u64>, ctx: int) -> int {
    counts[ctx * 8] + counts[ctx * 8 + 1] + counts[ctx * 8 + 2] + counts[ctx * 8 + 3] + counts[ctx * 8 + 4]
        + counts[ctx * 8 + 5] + counts[ctx * 8 + 6] + counts[ctx * 8 + 7]
}

/// Every context's total is the sum of its state counts.
pub open spec fn totals_consistent(counts: Seq<u64>, totals: Seq<u64>) -> bool {
    forall|ctx: int| 0 <= ctx < CONTEXTS ==> #[trigger] row_sum(counts, ctx) == totals[ctx]
}

/// Memory law: recording an observation keeps every context's total equal
/// to the sum of its state counts, as long as that total has not reached
/// the counters' limit.
pub proof fn lemma_observe_keeps_totals(before: OnlineMem, after: OnlineMem, context: usize, reality: usize)
    requires
        before.wf(),
        totals_consistent(before.counts@, before.totals@),
        context < CONTEXTS,
        reality < STATES,
        before.totals@[context as int] < u64::MAX,
        after.counts@ == before.counts@.update(context * 8 + reality,
            before.counts@[context * 8 + reality].saturating_add(1)),
        after.totals@ == before.totals@.update(context as int,
            before.totals@[context as int].saturating_add(1)),
    ensures
        totals_consistent(after.counts@, after.totals@),
        after.totals@[context as int] == before.totals@[context as int] + 1,
{
    let c = context as int;
    let i = c * 8 + reality;
    assert(row_sum(before.counts@, c) == before.totals@[c]);
    assert(before.counts@[i] <= before.totals@[c]);
    assert forall|x: int| 0 <= x < CONTEXTS implies #[trigger] row_sum(after.counts@, x) == after.totals@[x] by {
        assert(row_sum(before.counts@, x) == before.totals@[x]);
        if x != c {
            assert(x * 8 + 7 < c * 8 || c * 8 + 7 < x * 8) by (nonlinear_arith)
                requires x != c, 0 <= x, 0 <= c;
        }
    }
}

/// Fingerprint law: a model never reads the nonce, so two headers that
/// agree outside bytes 76..80 fall in the same bucket.
pub proof fn lemma_fingerprint_ignores_nonce(model: Model, h1: Seq<u8>, h2: Seq<u8>)
    requires
        h1.len() == 80,
        h2.len() == 80,
        h1.take(76) == h2.take(76),
    ensures
        model_bytes(model, h1) == model_bytes(model, h2),
        bucket_of(model_bytes(model, h1)) == bucket_of(model_bytes(model, h2)),
{
    assert forall|a: int, b: int| 0 <= a <= b <= 76 implies #[trigger] h1.subrange(a, b) == h2.subrange(a, b) by {
        assert forall|i: int| 0 <= i < b - a implies h1.subrange(a, b)[i] == h2.subrange(a, b)[i] by {
            assert(h1.take(76)[a + i] == h1[a + i]);
            assert(h2.take(76)[a + i] == h2[a + i]);
            assert(h1.take(76)[a + i] == h2.take(76)[a + i]);
        }
        assert(h1.subrange(a, b) =~= h2.subrange(a, b));
    }
    assert(h1.subrange(0, 4) == h2.subrange(0, 4));
    assert(h1.subrange(36, 68) == h2.subrange(36, 68));
    assert(h1.subrange(68, 72) == h2.subrange(68, 72));
    assert(h1.subrange(4, 36) == h2.subrange(4, 36));
    assert(h1.subrange(0, 76) == h2.subrange(0, 76));
}

} // verus!
