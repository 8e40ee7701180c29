//! Tallies over the frozen block dataset: how the X1331 figures, their
//! Hamming groups, the nonce bits and the first-level transitions are spread.
use vstd::prelude::*;
use crate::nonce::popcount8;

verus! {

/// A verified block of the dataset: its height, its nonce and the eleven
/// figures of its X1331 path.
#[derive(Debug, Clone)]
pub struct PathSample {
    pub height: u64,
    pub nonce: u32,
    pub path: Vec<u8>,
}

/// Every sample's path has eleven entries, and entry `level` is a figure.
pub open spec fn figures_at(samples: Seq<PathSample>, level: int) -> bool {
    forall|i: int| 0 <= i < samples.len() ==> (#[trigger] samples[i]).path@.len() == 11
        && samples[i].path@[level] < 8
}

/// Number of samples whose figure at `level` is `v`.
pub open spec fn count_figure(samples: Seq<PathSample>, level: int, v: int) -> nat
    decreases samples.len(),
{
    if samples.len() == 0 {
        0
    } else {
        count_figure(samples.drop_last(), level, v) + if samples.last().path@[level] == v {
            1nat
        } else {
            0nat
        }
    }
}

/// How many samples carry each figure at `level` (the last level holds
/// only two bits, so four values).
pub fn level_counts(samples: &Vec<PathSample>, level: usize) -> (counts: [u64; 8])
    requires
        level < 11,
        figures_at(samples@, level as int),
    ensures
        forall|v: int| 0 <= v < 8 ==> #[trigger] counts@[v] == count_figure(samples@, level as int, v),
{
    let mut counts = [0u64; 8];
    let mut i: usize = 0;
    while i < samples.len()
        invariant
            i <= samples@.len(),
            level < 11,
            figures_at(samples@, level as int),
            forall|v: int| 0 <= v < 8 ==> #[trigger] counts@[v] == count_figure(
                samples@.take(i as int),
                level as int,
                v,
            ),
            forall|v: int| 0 <= v < 8 ==> #[trigger] counts@[v] <= i,
        decreases samples@.len() - i,
    {
        assert(samples@.take(i + 1).drop_last() =~= samples@.take(i as int));
        assert(samples@[i as int].path@.len() == 11);
        let f = samples[i].path[level] as usize;
        counts[f] = counts[f] + 1;
        i = i + 1;
    }
    assert(samples@.take(samples@.len() as int) =~= samples@);
    counts
}

/// Number of samples whose figure at `level` has Hamming weight `w`.
pub open spec fn count_weight(samples: Seq<PathSample>, level: int, w: int) -> nat
    decreases samples.len(),
{
    if samples.len() == 0 {
        0
    } else {
        count_weight(samples.drop_last(), level, w) + if popcount8(samples.last().path@[level]) == w {
            1nat
        } else {
            0nat
        }
    }
}

/// How many figures at `level` fall in each Hamming group 0, 1, 2, 3.
pub fn hamming_groups(samples: &Vec<PathSample>, level: usize) -> (groups: [u64; 4])
    requires
        level < 11,
        figures_at(samples@, level as int),
    ensures
        forall|w: int| 0 <= w < 4 ==> #[trigger] groups@[w] == count_weight(samples@, level as int, w),
{
    let mut groups = [0u64; 4];
    let mut i: usize = 0;
    while i < samples.len()
        invariant
            i <= samples@.len(),
            level < 11,
            figures_at(samples@, level as int),
            forall|w: int| 0 <= w < 4 ==> #[trigger] groups@[w] == count_weight(
                samples@.take(i as int),
                level as int,
                w,
            ),
            forall|w: int| 0 <= w < 4 ==> #[trigger] groups@[w] <= i,
        decreases samples@.len() - i,
    {
        assert(samples@.take(i + 1).drop_last() =~= samples@.take(i as int));
        assert(samples@[i as int].path@.len() == 11);
        let f = samples[i].path[level];
        let w = crate::nonce::hamming_weight(f);
        proof {
            crate::nonce::lemma_figure_weight(f);
        }
        groups[w] = groups[w] + 1;
        i = i + 1;
    }
    assert(samples@.take(samples@.len() as int) =~= samples@);
    groups
}

/// Number of samples whose nonce has bit `b` set.
pub open spec fn count_bit(samples: Seq<PathSample>, b: u32) -> nat
    decreases samples.len(),
{
    if samples.len() == 0 {
        0
    } else {
        count_bit(samples.drop_last(), b) + if (samples.last().nonce >> b) & 1 == 1 {
            1nat
        } else {
            0nat
        }
    }
}

/// How many nonces have bit `b` set.
pub fn bit_ones(samples: &Vec<PathSample>, b: u32) -> (r: u64)
    requires
        b < 32,
    ensures
        r == count_bit(samples@, b),
{
    let mut ones: u64 = 0;
    let mut i: usize = 0;
    while i < samples.len()
        invariant
            i <= samples@.len(),
            b < 32,
            ones == count_bit(samples@.take(i as int), b),
            ones <= i,
        decreases samples@.len() - i,
    {
        assert(samples@.take(i + 1).drop_last() =~= samples@.take(i as int));
        if (samples[i].nonce >> b) & 1 == 1 {
            ones = ones + 1;
        }
        i = i + 1;
    }
    assert(samples@.take(samples@.len() as int) =~= samples@);
    ones
}

/// Number of nonces in the lower half of the 32-bit range.
pub open spec fn count_lower_half(samples: Seq<PathSample>) -> nat
    decreases samples.len(),
{
    if samples.len() == 0 {
        0
    } else {
        count_lower_half(samples.drop_last()) + if samples.last().nonce < 0x8000_0000 {
            1nat
        } else {
            0nat
        }
    }
}

/// The smallest and largest nonce, and how many nonces lie below 2^31.
pub fn nonce_summary(samples: &Vec<PathSample>) -> (r: (u32, u32, u64))
    requires
        samples@.len() > 0,
    ensures
        exists|i: int| 0 <= i < samples@.len() && samples@[i].nonce == r.0,
        exists|i: int| 0 <= i < samples@.len() && samples@[i].nonce == r.1,
        forall|i: int| 0 <= i < samples@.len() ==> r.0 <= #[trigger] samples@[i].nonce <= r.1,
        r.2 == count_lower_half(samples@),
{
    let mut min = samples[0].nonce;
    let mut max = samples[0].nonce;
    let mut lower: u64 = 0;
    let mut i: usize = 0;
    while i < samples.len()
        invariant
            0 < samples@.len(),
            i <= samples@.len(),
            exists|j: int| 0 <= j < samples@.len() && samples@[j].nonce == min,
            exists|j: int| 0 <= j < samples@.len() && samples@[j].nonce == max,
            forall|j: int| 0 <= j < i ==> min <= #[trigger] samples@[j].nonce <= max,
            min <= samples@[0].nonce <= max,
            lower == count_lower_half(samples@.take(i as int)),
            lower <= i,
        decreases samples@.len() - i,
    {
        assert(samples@.take(i + 1).drop_last() =~= samples@.take(i as int));
        let n = samples[i].nonce;
        if n < min {
            min = n;
        }
        if n > max {
            max = n;
        }
        if n < 0x8000_0000 {
            lower = lower + 1;
        }
        i = i + 1;
    }
    assert(samples@.take(samples@.len() as int) =~= samples@);
    (min, max, lower)
}

/// Number of consecutive pairs among the first `k` samples going from
/// first-level figure `a` to `b`.
pub open spec fn count_transition(samples: Seq<PathSample>, k: int, a: int, b: int) -> nat
    decreases k,
{
    if k < 2 {
        0
    } else {
        count_transition(samples, k - 1, a, b) + if samples[k - 2].path@[0] == a && samples[k
            - 1].path@[0] == b {
            1nat
        } else {
            0nat
        }
    }
}

/// Number of consecutive pairs among the first `k` samples with the same
/// first-level figure.
pub open spec fn count_repeat(samples: Seq<PathSample>, k: int) -> nat
    decreases k,
{
    if k < 2 {
        0
    } else {
        count_repeat(samples, k - 1) + if samples[k - 2].path@[0] == samples[k - 1].path@[0] {
            1nat
        } else {
            0nat
        }
    }
}

/// The matrix of first-level transitions between consecutive samples, and
/// how many of them keep the same figure.
pub fn l1_transitions(samples: &Vec<PathSample>) -> (r: ([[u64; 8]; 8], u64))
    requires
        figures_at(samples@, 0),
    ensures
        forall|a: int, b: int| 0 <= a < 8 && 0 <= b < 8 ==> #[trigger] r.0@[a]@[b] == count_transition(
            samples@,
            samples@.len() as int,
            a,
            b,
        ),
        r.1 == count_repeat(samples@, samples@.len() as int),
{
    let mut m = [[0u64; 8]; 8];
    let mut same: u64 = 0;
    if samples.len() < 2 {
        proof {
            assert(count_repeat(samples@, samples@.len() as int) == 0);
            assert forall|a: int, b: int| 0 <= a < 8 && 0 <= b < 8 implies #[trigger] m@[a]@[b]
                == count_transition(samples@, samples@.len() as int, a, b) by {}
        }
        return (m, same);
    }
    let mut i: usize = 1;
    while i < samples.len()
        invariant
            1 <= i <= samples@.len(),
            figures_at(samples@, 0),
            forall|a: int, b: int| 0 <= a < 8 && 0 <= b < 8 ==> #[trigger] m@[a]@[b] == count_transition(
                samples@,
                i as int,
                a,
                b,
            ),
            forall|a: int, b: int| 0 <= a < 8 && 0 <= b < 8 ==> #[trigger] m@[a]@[b] <= i,
            same == count_repeat(samples@, i as int),
            same <= i,
        decreases samples@.len() - i,
    {
        assert(samples@[i - 1].path@.len() == 11 && samples@[i as int].path@.len() == 11);
        let from = samples[i - 1].path[0] as usize;
        let to = samples[i].path[0] as usize;
        let mut row = m[from];
        row[to] = row[to] + 1;
        m[from] = row;
        if from == to {
            same = same + 1;
        }
        i = i + 1;
    }
    (m, same)
}

/// Number of samples whose first two figures are `a` then `b`.
pub open spec fn count_pair(samples: Seq<PathSample>, a: int, b: int) -> nat
    decreases samples.len(),
{
    if samples.len() == 0 {
        0
    } else {
        count_pair(samples.drop_last(), a, b) + if samples.last().path@[0] == a && samples.last().path@[1]
            == b {
            1nat
        } else {
            0nat
        }
    }
}

/// How often each second-level figure follows each first-level figure
/// within a path.
pub fn l2_given_l1(samples: &Vec<PathSample>) -> (m: [[u64; 8]; 8])
    requires
        figures_at(samples@, 0),
        figures_at(samples@, 1),
    ensures
        forall|a: int, b: int| 0 <= a < 8 && 0 <= b < 8 ==> #[trigger] m@[a]@[b] == count_pair(samples@, a, b),
{
    let mut m = [[0u64; 8]; 8];
    let mut i: usize = 0;
    while i < samples.len()
        invariant
            i <= samples@.len(),
            figures_at(samples@, 0),
            figures_at(samples@, 1),
            forall|a: int, b: int| 0 <= a < 8 && 0 <= b < 8 ==> #[trigger] m@[a]@[b] == count_pair(
                samples@.take(i as int),
                a,
                b,
            ),
            forall|a: int, b: int| 0 <= a < 8 && 0 <= b < 8 ==> #[trigger] m@[a]@[b] <= i,
        decreases samples@.len() - i,
    {
        assert(samples@.take(i + 1).drop_last() =~= samples@.take(i as int));
        assert(samples@[i as int].path@.len() == 11);
        let a = samples[i].path[0] as usize;
        let b = samples[i].path[1] as usize;
        let mut row = m[a];
        row[b] = row[b] + 1;
        m[a] = row;
        i = i + 1;
    }
    assert(samples@.take(samples@.len() as int) =~= samples@);
    m
}

/// Number of samples whose nonce is `n`.
pub open spec fn count_nonce(samples: Seq<PathSample>, n: u32) -> nat
    decreases samples.len(),
{
    if samples.len() == 0 {
        0
    } else {
        count_nonce(samples.drop_last(), n) + if samples.last().nonce == n {
            1nat
        } else {
            0nat
        }
    }
}

proof fn lemma_count_nonce_bound(samples: Seq<PathSample>, n: u32)
    ensures
        count_nonce(samples, n) <= samples.len(),
    decreases samples.len(),
{
    if samples.len() > 0 {
        lemma_count_nonce_bound(samples.drop_last(), n);
    }
}

fn count_of(samples: &Vec<PathSample>, n: u32) -> (c: u64)
    requires
        samples@.len() <= u64::MAX,
    ensures
        c == count_nonce(samples@, n),
{
    let mut c: u64 = 0;
    let mut k: usize = 0;
    while k < samples.len()
        invariant
            k <= samples@.len() <= u64::MAX,
            c == count_nonce(samples@.take(k as int), n),
            c <= k,
        decreases samples@.len() - k,
    {
        assert(samples@.take(k + 1).drop_last() =~= samples@.take(k as int));
        if samples[k].nonce == n {
            c = c + 1;
        }
        k = k + 1;
    }
    assert(samples@.take(samples@.len() as int) =~= samples@);
    c
}

fn listed(list: &Vec<(u32, u64)>, n: u32) -> (r: bool)
    ensures
        r == exists|j: int| 0 <= j < list@.len() && list@[j].0 == n,
{
    let mut j: usize = 0;
    while j < list.len()
        invariant
            j <= list@.len(),
            forall|x: int| 0 <= x < j ==> list@[x].0 != n,
        decreases list@.len() - j,
    {
        if list[j].0 == n {
            return true;
        }
        j = j + 1;
    }
    false
}

/// `e` is one of the entries of `list`.
pub open spec fn in_list(list: Seq<(u32, u64)>, e: (u32, u64)) -> bool {
    exists|x: int| 0 <= x < list.len() && list[x] == e
}

/// No two entries of `s` share a nonce.
pub open spec fn distinct_keys(s: Seq<(u32, u64)>) -> bool {
    forall|x: int, y: int| 0 <= x < y < s.len() ==> s[x].0 != s[y].0
}

/// Each nonce that occurs more than once, once, with its count, in the
/// order of its first occurrence.
fn repeats_in_order(samples: &Vec<PathSample>) -> (list: Vec<(u32, u64)>)
    requires
        samples@.len() < u64::MAX,
    ensures
        forall|x: int| 0 <= x < list@.len() ==> #[trigger] list@[x].1 == count_nonce(samples@, list@[x].0)
            && list@[x].1 > 1,
        forall|k: int| 0 <= k < samples@.len() && count_nonce(samples@, #[trigger] samples@[k].nonce) > 1
            ==> exists|j: int| 0 <= j < list@.len() && list@[j].0 == samples@[k].nonce,
        distinct_keys(list@),
{
    let mut list: Vec<(u32, u64)> = Vec::new();
    let mut i: usize = 0;
    while i < samples.len()
        invariant
            i <= samples@.len() < u64::MAX,
            forall|x: int| 0 <= x < list@.len() ==> #[trigger] list@[x].1 == count_nonce(samples@, list@[x].0)
                && list@[x].1 > 1,
            forall|k: int| 0 <= k < i && count_nonce(samples@, #[trigger] samples@[k].nonce) > 1
                ==> exists|j: int| 0 <= j < list@.len() && list@[j].0 == samples@[k].nonce,
            distinct_keys(list@),
        decreases samples@.len() - i,
    {
        let nonce = samples[i].nonce;
        let ghost before = list@;
        if !listed(&list, nonce) {
            let c = count_of(samples, nonce);
            if c > 1 {
                list.push((nonce, c));
                proof {
                    assert(list@[list@.len() - 1].0 == nonce);
                    assert forall|k: int| 0 <= k < i && count_nonce(samples@, #[trigger] samples@[k].nonce) > 1
                        implies exists|j: int| 0 <= j < list@.len() && list@[j].0 == samples@[k].nonce by {
                        let j = choose|j: int| 0 <= j < before.len() && before[j].0 == samples@[k].nonce;
                        assert(list@[j] == before[j]);
                    }
                }
            }
        }
        i = i + 1;
    }
    list
}

/// Appends, in their order in `list`, the entries whose count is `c`.
fn append_count(list: &Vec<(u32, u64)>, out: &mut Vec<(u32, u64)>, c: u64)
    requires
        distinct_keys(list@),
    ensures
        final(out)@.len() >= old(out)@.len(),
        forall|p: int| 0 <= p < old(out)@.len() ==> final(out)@[p] == old(out)@[p],
        forall|p: int| old(out)@.len() <= p < final(out)@.len() ==> (#[trigger] final(out)@[p]).1 == c
            && in_list(list@, final(out)@[p]),
        forall|x: int| 0 <= x < list@.len() && (#[trigger] list@[x]).1 == c ==> in_list(
            final(out)@.subrange(old(out)@.len() as int, final(out)@.len() as int),
            list@[x],
        ),
        distinct_keys(final(out)@.subrange(old(out)@.len() as int, final(out)@.len() as int)),
{
    let ghost start = out@;
    let mut j: usize = 0;
    while j < list.len()
        invariant
            j <= list@.len(),
            distinct_keys(list@),
            out@.len() >= start.len(),
            forall|p: int| 0 <= p < start.len() ==> out@[p] == start[p],
            forall|p: int| start.len() <= p < out@.len() ==> (#[trigger] out@[p]).1 == c && in_list(
                list@,
                out@[p],
            ),
            forall|p: int, x: int| start.len() <= p < out@.len() && j <= x < list@.len() ==> (
            #[trigger] out@[p]).0 != (#[trigger] list@[x]).0,
            forall|x: int| 0 <= x < j && (#[trigger] list@[x]).1 == c ==> in_list(
                out@.subrange(start.len() as int, out@.len() as int),
                list@[x],
            ),
            distinct_keys(out@.subrange(start.len() as int, out@.len() as int)),
        decreases list@.len() - j,
    {
        let e = list[j];
        let ghost prev = out@;
        if e.1 == c {
            out.push(e);
            proof {
                let ns = out@.subrange(start.len() as int, out@.len() as int);
                let ps = prev.subrange(start.len() as int, prev.len() as int);
                assert(ns =~= ps.push(e));
                assert(in_list(list@, e));
                assert forall|x: int| 0 <= x < j + 1 && (#[trigger] list@[x]).1 == c implies in_list(
                    ns,
                    list@[x],
                ) by {
                    if x < j {
                        let p = choose|p: int| 0 <= p < ps.len() && ps[p] == list@[x];
                        assert(ns[p] == ps[p]);
                    } else {
                        assert(ns[ns.len() - 1] == list@[x]);
                    }
                }
                assert forall|p: int, q: int| 0 <= p < q < ns.len() implies ns[p].0 != ns[q].0 by {
                    if q == ns.len() - 1 {
                        assert(ns[p] == out@[start.len() + p]);
                        assert(out@[start.len() + p].0 != list@[j as int].0);
                    } else {
                        assert(ns[p] == ps[p] && ns[q] == ps[q]);
                    }
                }
                assert forall|p: int, x: int| start.len() <= p < out@.len() && j + 1 <= x < list@.len()
                    implies (#[trigger] out@[p]).0 != (#[trigger] list@[x]).0 by {
                    if p == out@.len() - 1 {
                        assert(out@[p] == list@[j as int]);
                    } else {
                        assert(out@[p] == prev[p]);
                    }
                }
            }
        } else {
            proof {
                assert(out@ == prev);
            }
        }
        j = j + 1;
    }
}

/// The nonces that occur more than once, each listed once with its number
/// of occurrences, the most frequent first.
pub fn repeated_nonces(samples: &Vec<PathSample>) -> (r: Vec<(u32, u64)>)
    requires
        samples@.len() < u64::MAX,
    ensures
        forall|i: int| 0 <= i < r@.len() ==> #[trigger] r@[i].1 == count_nonce(samples@, r@[i].0) && r@[i].1 > 1,
        forall|k: int| 0 <= k < samples@.len() && count_nonce(samples@, #[trigger] samples@[k].nonce) > 1
            ==> exists|j: int| 0 <= j < r@.len() && r@[j].0 == samples@[k].nonce,
        distinct_keys(r@),
        forall|i: int, j: int| 0 <= i < j < r@.len() ==> r@[i].1 >= r@[j].1,
{
    let list = repeats_in_order(samples);
    let n = samples.len();
    let mut out: Vec<(u32, u64)> = Vec::new();
    let mut c: u64 = n as u64;
    proof {
        assert forall|x: int| 0 <= x < list@.len() implies (#[trigger] list@[x]).1 <= c by {
            lemma_count_nonce_bound(samples@, list@[x].0);
        }
    }
    while c >= 2
        invariant
            n == samples@.len() < u64::MAX,
            c <= n,
            forall|x: int| 0 <= x < list@.len() ==> #[trigger] list@[x].1 == count_nonce(samples@, list@[x].0)
                && list@[x].1 > 1,
            distinct_keys(list@),
            forall|p: int| 0 <= p < out@.len() ==> in_list(list@, #[trigger] out@[p]) && out@[p].1 > c,
            forall|x: int| 0 <= x < list@.len() && (#[trigger] list@[x]).1 > c ==> in_list(out@, list@[x]),
            distinct_keys(out@),
            forall|p: int, q: int| 0 <= p < q < out@.len() ==> out@[p].1 >= out@[q].1,
        decreases c,
    {
        let ghost before = out@;
        append_count(&list, &mut out, c);
        proof {
            let added = out@.subrange(before.len() as int, out@.len() as int);
            assert forall|p: int| 0 <= p < out@.len() implies in_list(list@, #[trigger] out@[p]) && out@[p].1
                > c - 1 by {
                if p < before.len() {
                    assert(out@[p] == before[p]);
                }
            }
            assert forall|x: int| 0 <= x < list@.len() && (#[trigger] list@[x]).1 > c - 1 implies in_list(
                out@,
                list@[x],
            ) by {
                if list@[x].1 > c {
                    let p = choose|p: int| 0 <= p < before.len() && before[p] == list@[x];
                    assert(out@[p] == before[p]);
                } else {
                    assert(in_list(added, list@[x]));
                    let p = choose|p: int| 0 <= p < added.len() && added[p] == list@[x];
                    assert(out@[before.len() + p] == added[p]);
                }
            }
            assert forall|p: int, q: int| 0 <= p < q < out@.len() implies out@[p].0 != out@[q].0 by {
                if q < before.len() {
                    assert(out@[p] == before[p] && out@[q] == before[q]);
                } else if p < before.len() {
                    assert(out@[p] == before[p]);
                    assert(out@[p].1 > c);
                    assert(out@[q].1 == c);
                    assert(in_list(list@, out@[p]));
                    assert(in_list(list@, out@[q]));
                    let x = choose|x: int| 0 <= x < list@.len() && list@[x] == out@[p];
                    let y = choose|y: int| 0 <= y < list@.len() && list@[y] == out@[q];
                    assert(x != y);
                } else {
                    assert(added[p - before.len()] == out@[p]);
                    assert(added[q - before.len()] == out@[q]);
                }
            }
            assert forall|p: int, q: int| 0 <= p < q < out@.len() implies out@[p].1 >= out@[q].1 by {
                if q < before.len() {
                    assert(out@[p] == before[p] && out@[q] == before[q]);
                } else if p < before.len() {
                    assert(out@[p] == before[p]);
                    assert(out@[q].1 == c);
                } else {
                    assert(out@[q].1 == c);
                    assert(out@[p].1 == c);
                }
            }
        }
        c = c - 1;
    }
    proof {
        assert forall|i: int| 0 <= i < out@.len() implies #[trigger] out@[i].1 == count_nonce(samples@, out@[i].0)
            && out@[i].1 > 1 by {
            assert(in_list(list@, out@[i]));
            let x = choose|x: int| 0 <= x < list@.len() && list@[x] == out@[i];
            assert(list@[x].1 == count_nonce(samples@, list@[x].0));
        }
        assert forall|k: int| 0 <= k < samples@.len() && count_nonce(samples@, #[trigger] samples@[k].nonce) > 1
            implies exists|j: int| 0 <= j < out@.len() && out@[j].0 == samples@[k].nonce by {
            let x = choose|x: int| 0 <= x < list@.len() && list@[x].0 == samples@[k].nonce;
            assert(list@[x].1 > 1);
            assert(in_list(out@, list@[x]));
            let p = choose|p: int| 0 <= p < out@.len() && out@[p] == list@[x];
        }
    }
    out
}

} // verus!
