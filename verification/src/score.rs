//! Tallies of candidate hashes: how many, how many low, and how low.
use vstd::prelude::*;
use crate::hashing::count_leading_zero_bits;
use crate::hashing::leading_zero_bits_spec;
use crate::pow::DIFFICULTY_BITS;
use crate::pow::header_hash;
use crate::pow::sha256d_header;

verus! {

/// Hashes tried, low hashes found, and sums of leading zero bits.
#[derive(Debug, Clone, Copy, PartialEq, Eq, Structural, Default)]
pub struct Score {
    pub hashes: u64,
    pub successes: u64,
    pub lz_sum: u64,
    pub best_sum: u64,
}

/// One hashed candidate.
#[derive(Debug, Clone, Copy, PartialEq, Eq, Structural)]
pub struct Experience {
    pub nonce: u32,
    pub lz: u32,
    pub success: bool,
}

/// Adds `src` into `dst`, field by field.
pub fn add_score(dst: &mut Score, src: &Score)
    requires
        old(dst).hashes + src.hashes <= u64::MAX,
        old(dst).successes + src.successes <= u64::MAX,
        old(dst).lz_sum + src.lz_sum <= u64::MAX,
        old(dst).best_sum + src.best_sum <= u64::MAX,
    ensures
        final(dst).hashes == old(dst).hashes + src.hashes,
        final(dst).successes == old(dst).successes + src.successes,
        final(dst).lz_sum == old(dst).lz_sum + src.lz_sum,
        final(dst).best_sum == old(dst).best_sum + src.best_sum,
{
    dst.hashes = dst.hashes + src.hashes;
    dst.successes = dst.successes + src.successes;
    dst.lz_sum = dst.lz_sum + src.lz_sum;
    dst.best_sum = dst.best_sum + src.best_sum;
}

/// Counts one experience: one more hash, its zero bits, the best so far,
/// and one more success if it succeeded.
pub fn score_experience(score: &mut Score, e: &Experience)
    requires
        old(score).hashes < u64::MAX,
        old(score).successes < u64::MAX,
        old(score).lz_sum + e.lz <= u64::MAX,
    ensures
        final(score).hashes == old(score).hashes + 1,
        final(score).lz_sum == old(score).lz_sum + e.lz,
        final(score).best_sum == if old(score).best_sum >= e.lz {
            old(score).best_sum
        } else {
            e.lz as u64
        },
        final(score).successes == old(score).successes + if e.success {
            1int
        } else {
            0int
        },
{
    score.hashes = score.hashes + 1;
    score.lz_sum = score.lz_sum + e.lz as u64;
    if (e.lz as u64) > score.best_sum {
        score.best_sum = e.lz as u64;
    }
    if e.success {
        score.successes = score.successes + 1;
    }
}

/// Hashes a candidate and records its leading zero bits and whether it is low.
pub fn observe_candidate(header: &[u8; 80], nonce: u32) -> (e: Experience)
    ensures
        e.nonce == nonce,
        e.lz == leading_zero_bits_spec(header_hash(header@, nonce)),
        e.success == (e.lz >= DIFFICULTY_BITS),
{
    let hash = sha256d_header(header, nonce);
    let lz = count_leading_zero_bits(&hash);
    Experience { nonce, lz, success: lz >= DIFFICULTY_BITS }
}

/// Zero bits of the `j`-th selected candidate.
pub open spec fn selected_lz(header: Seq<u8>, nonces: Seq<u32>, indices: Seq<usize>, j: int) -> nat {
    leading_zero_bits_spec(header_hash(header, nonces[indices[j] as int]))
}

/// Score of the first `k` selected candidates: sums and counts over them,
/// and the largest zero-bit count among them as `best_sum`.
pub open spec fn eval_spec(header: Seq<u8>, nonces: Seq<u32>, indices: Seq<usize>, k: nat) -> Score
    decreases k,
{
    if k == 0 {
        Score { hashes: 0, successes: 0, lz_sum: 0, best_sum: 0 }
    } else {
        let s = eval_spec(header, nonces, indices, (k - 1) as nat);
        let lz = selected_lz(header, nonces, indices, k - 1);
        Score {
            hashes: (s.hashes + 1) as u64,
            successes: (s.successes + if lz >= DIFFICULTY_BITS {
                1int
            } else {
                0int
            }) as u64,
            lz_sum: (s.lz_sum + lz) as u64,
            best_sum: if s.best_sum >= lz {
                s.best_sum
            } else {
                lz as u64
            },
        }
    }
}

/// Sum of the zero bits of the first `k` selected candidates, unbounded.
pub open spec fn selected_lz_sum(header: Seq<u8>, nonces: Seq<u32>, indices: Seq<usize>, k: nat) -> nat
    decreases k,
{
    if k == 0 {
        0
    } else {
        selected_lz_sum(header, nonces, indices, (k - 1) as nat) + selected_lz(header, nonces, indices, k - 1)
    }
}

proof fn lemma_lz_sum_grows(header: Seq<u8>, nonces: Seq<u32>, indices: Seq<usize>, a: nat, b: nat)
    requires
        a <= b,
    ensures
        selected_lz_sum(header, nonces, indices, a) <= selected_lz_sum(header, nonces, indices, b),
    decreases b,
{
    if a < b {
        lemma_lz_sum_grows(header, nonces, indices, a, (b - 1) as nat);
    }
}

/// While the zero-bit sum fits in a `u64`, the score's counters hold their
/// true values: `k` hashes, at most `k` successes, and that sum.
proof fn lemma_eval_counts(header: Seq<u8>, nonces: Seq<u32>, indices: Seq<usize>, k: nat)
    requires
        k <= u64::MAX,
        selected_lz_sum(header, nonces, indices, k) <= u64::MAX,
    ensures
        eval_spec(header, nonces, indices, k).hashes == k,
        eval_spec(header, nonces, indices, k).successes <= k,
        eval_spec(header, nonces, indices, k).lz_sum == selected_lz_sum(header, nonces, indices, k),
    decreases k,
{
    if k > 0 {
        lemma_eval_counts(header, nonces, indices, (k - 1) as nat);
    }
}

/// Hashes the candidates at `indices` and scores them.
pub fn eval_indices(header: &[u8; 80], nonces: &Vec<u32>, indices: &Vec<usize>) -> (r: Score)
    requires
        forall|j: int| 0 <= j < indices@.len() ==> #[trigger] indices@[j] < nonces@.len(),
        selected_lz_sum(header@, nonces@, indices@, indices@.len()) <= u64::MAX,
    ensures
        r == eval_spec(header@, nonces@, indices@, indices@.len()),
{
    let mut score = Score { hashes: 0, successes: 0, lz_sum: 0, best_sum: 0 };
    let mut best: u32 = 0;
    let mut j: usize = 0;
    while j < indices.len()
        invariant
            j <= indices@.len(),
            forall|x: int| 0 <= x < indices@.len() ==> #[trigger] indices@[x] < nonces@.len(),
            selected_lz_sum(header@, nonces@, indices@, indices@.len()) <= u64::MAX,
            score == (Score { best_sum: 0, ..eval_spec(header@, nonces@, indices@, j as nat) }),
            best == eval_spec(header@, nonces@, indices@, j as nat).best_sum,
            score.hashes == j,
            score.successes <= j,
            score.lz_sum == selected_lz_sum(header@, nonces@, indices@, j as nat),
            best <= 256,
        decreases indices@.len() - j,
    {
        let nonce = nonces[indices[j]];
        let hash = sha256d_header(header, nonce);
        let lz = count_leading_zero_bits(&hash);
        proof {
            lemma_lz_sum_grows(header@, nonces@, indices@, (j + 1) as nat, indices@.len());
            assert(selected_lz(header@, nonces@, indices@, j as int) == lz);
        }
        score.hashes = score.hashes + 1;
        score.lz_sum = score.lz_sum + lz as u64;
        if lz > best {
            best = lz;
        }
        if lz >= DIFFICULTY_BITS {
            score.successes = score.successes + 1;
        }
        j = j + 1;
    }
    score.best_sum = best as u64;
    score
}

/// Hashes the candidates at `indices` and adds them to `score`: hashes,
/// successes and zero bits are summed, and the batch's best zero-bit count
/// is added to `best_sum`. Returns the batch's successes.
pub fn eval_arm(header: &[u8; 80], nonces: &Vec<u32>, indices: &Vec<usize>, score: &mut Score) -> (r: u64)
    requires
        forall|j: int| 0 <= j < indices@.len() ==> #[trigger] indices@[j] < nonces@.len(),
        ({
            let e = eval_spec(header@, nonces@, indices@, indices@.len());
            &&& old(score).hashes + e.hashes <= u64::MAX
            &&& old(score).successes + e.successes <= u64::MAX
            &&& old(score).lz_sum + selected_lz_sum(header@, nonces@, indices@, indices@.len()) <= u64::MAX
            &&& old(score).best_sum + e.best_sum <= u64::MAX
        }),
    ensures
        ({
            let e = eval_spec(header@, nonces@, indices@, indices@.len());
            &&& r == e.successes
            &&& final(score).hashes == old(score).hashes + e.hashes
            &&& final(score).successes == old(score).successes + e.successes
            &&& final(score).lz_sum == old(score).lz_sum + e.lz_sum
            &&& final(score).best_sum == old(score).best_sum + e.best_sum
        }),
{
    let batch = eval_indices(header, nonces, indices);
    proof {
        assert(indices@.len() == indices.len());
        lemma_eval_counts(header@, nonces@, indices@, indices@.len());
    }
    add_score(score, &batch);
    batch.successes
}

/// Counts of hashes by leading zero bits: how many, how many with at
/// least 4, 8, 12 and 16, and the sum of the zero bits.
#[derive(Debug, Clone, Copy, PartialEq, Eq, Structural)]
pub struct LzCounts {
    pub n: u64,
    pub lz4: u64,
    pub lz8: u64,
    pub lz12: u64,
    pub lz16: u64,
    pub leading_zero_sum: u64,
}

/// The counts after one more hash with `lz` leading zero bits.
pub open spec fn lz_counted(c: LzCounts, lz: nat) -> LzCounts {
    LzCounts {
        n: (c.n + 1) as u64,
        lz4: (c.lz4 + if lz >= 4 { 1int } else { 0int }) as u64,
        lz8: (c.lz8 + if lz >= 8 { 1int } else { 0int }) as u64,
        lz12: (c.lz12 + if lz >= 12 { 1int } else { 0int }) as u64,
        lz16: (c.lz16 + if lz >= 16 { 1int } else { 0int }) as u64,
        leading_zero_sum: (c.leading_zero_sum + lz) as u64,
    }
}

/// Counts one hash.
pub fn update_lz_counts(c: &mut LzCounts, hash: &[u8; 32])
    requires
        old(c).n < u64::MAX,
        old(c).lz4 < u64::MAX,
        old(c).lz8 < u64::MAX,
        old(c).lz12 < u64::MAX,
        old(c).lz16 < u64::MAX,
        old(c).leading_zero_sum + 256 <= u64::MAX,
    ensures
        *final(c) == lz_counted(*old(c), leading_zero_bits_spec(hash@)),
{
    let lz = count_leading_zero_bits(hash);
    c.n = c.n + 1;
    if lz >= 4 {
        c.lz4 = c.lz4 + 1;
    }
    if lz >= 8 {
        c.lz8 = c.lz8 + 1;
    }
    if lz >= 12 {
        c.lz12 = c.lz12 + 1;
    }
    if lz >= 16 {
        c.lz16 = c.lz16 + 1;
    }
    c.leading_zero_sum = c.leading_zero_sum + lz as u64;
}

/// Field-by-field sum of the first `k` counts.
pub open spec fn lz_counts_sum(cs: Seq<LzCounts>, k: nat) -> (nat, nat, nat, nat, nat, nat)
    decreases k,
{
    if k == 0 {
        (0, 0, 0, 0, 0, 0)
    } else {
        let (n, a, b, c, d, z) = lz_counts_sum(cs, (k - 1) as nat);
        let x = cs[k - 1];
        (n + x.n as nat, a + x.lz4 as nat, b + x.lz8 as nat, c + x.lz12 as nat, d + x.lz16 as nat, z
            + x.leading_zero_sum as nat)
    }
}

/// The counts of the eight state classes added together.
pub fn aggregate_counts(states: &[LzCounts; 8]) -> (r: LzCounts)
    requires
        forall|k: nat| k <= 8 ==> {
            let t = #[trigger] lz_counts_sum(states@, k);
            t.0 <= u64::MAX && t.1 <= u64::MAX && t.2 <= u64::MAX && t.3 <= u64::MAX && t.4 <= u64::MAX
                && t.5 <= u64::MAX
        },
    ensures
        ({
            let t = lz_counts_sum(states@, 8);
            r == (LzCounts {
                n: t.0 as u64,
                lz4: t.1 as u64,
                lz8: t.2 as u64,
                lz12: t.3 as u64,
                lz16: t.4 as u64,
                leading_zero_sum: t.5 as u64,
            })
        }),
{
    let mut out = LzCounts { n: 0, lz4: 0, lz8: 0, lz12: 0, lz16: 0, leading_zero_sum: 0 };
    let mut i: usize = 0;
    while i < 8
        invariant
            i <= 8,
            forall|k: nat| k <= 8 ==> {
                let t = #[trigger] lz_counts_sum(states@, k);
                t.0 <= u64::MAX && t.1 <= u64::MAX && t.2 <= u64::MAX && t.3 <= u64::MAX && t.4
                    <= u64::MAX && t.5 <= u64::MAX
            },
            ({
                let t = lz_counts_sum(states@, i as nat);
                out == (LzCounts {
                    n: t.0 as u64,
                    lz4: t.1 as u64,
                    lz8: t.2 as u64,
                    lz12: t.3 as u64,
                    lz16: t.4 as u64,
                    leading_zero_sum: t.5 as u64,
                })
            }),
        decreases 8 - i,
    {
        assert(lz_counts_sum(states@, (i + 1) as nat).0 <= u64::MAX);
        let x = states[i];
        out.n = out.n + x.n;
        out.lz4 = out.lz4 + x.lz4;
        out.lz8 = out.lz8 + x.lz8;
        out.lz12 = out.lz12 + x.lz12;
        out.lz16 = out.lz16 + x.lz16;
        out.leading_zero_sum = out.leading_zero_sum + x.leading_zero_sum;
        i = i + 1;
    }
    out
}

} // verus!
