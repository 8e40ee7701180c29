//! Text forms of 3-bit figures and tallies over observed blocks.
use vstd::prelude::*;
use crate::nonce::bit7_is_one;

verus! {

/// The character of a binary digit.
pub open spec fn digit_char(b: nat) -> char {
    if b == 0 {
        '0'
    } else {
        '1'
    }
}

/// Binary digits of `n`, most significant first, without leading zeros ("0" for zero).
pub open spec fn binary_digits(n: nat) -> Seq<char>
    decreases n,
{
    if n < 2 {
        seq![digit_char(n)]
    } else {
        binary_digits(n / 2).push(digit_char(n % 2))
    }
}

/// `format!("{:03b}", n)`: binary digits left-padded with zeros to width three.
pub open spec fn fmt_state_spec(n: nat) -> Seq<char> {
    if n < 2 {
        seq!['0', '0'] + binary_digits(n)
    } else if n < 4 {
        seq!['0'] + binary_digits(n)
    } else {
        binary_digits(n)
    }
}

fn push_binary(s: &mut String, n: usize)
    ensures
        final(s)@ == old(s)@ + binary_digits(n as nat),
    decreases n,
{
    if n >= 2 {
        push_binary(s, n / 2);
    }
    if n % 2 == 0 {
        proof {
            reveal_strlit("0");
        }
        s.append("0");
    } else {
        proof {
            reveal_strlit("1");
        }
        s.append("1");
    }
}

/// A figure written as three binary digits (wider values keep all their digits).
pub fn fmt_state(state: usize) -> (r: String)
    ensures
        r@ == fmt_state_spec(state as nat),
{
    let mut s = String::new();
    proof {
        reveal_strlit("0");
        reveal_strlit("00");
    }
    if state < 2 {
        s.append("00");
    } else if state < 4 {
        s.append("0");
    }
    push_binary(&mut s, state);
    s
}

/// The first `k` entries of `ranking`, each formatted as a figure, joined by commas.
pub open spec fn fmt_top_spec(ranking: Seq<usize>, k: nat) -> Seq<char>
    decreases k,
{
    if k == 0 {
        Seq::empty()
    } else if k == 1 {
        fmt_state_spec(ranking[0] as nat)
    } else {
        fmt_top_spec(ranking, (k - 1) as nat) + seq![','] + fmt_state_spec(ranking[k - 1] as nat)
    }
}

/// The top `k` figures of a ranking, comma separated.
pub fn fmt_top(ranking: &[usize; 8], k: usize) -> (r: String)
    requires
        k <= 8,
    ensures
        r@ == fmt_top_spec(ranking@, k as nat),
{
    let mut s = String::new();
    let mut i: usize = 0;
    while i < k
        invariant
            i <= k <= 8,
            s@ == fmt_top_spec(ranking@, i as nat),
        decreases k - i,
    {
        if i > 0 {
            proof {
                reveal_strlit(",");
            }
            s.append(",");
        }
        let f = fmt_state(ranking[i]);
        s.append(f.as_str());
        i = i + 1;
    }
    s
}

/// Sum of `actual[ranking[i]]` over the first `k` ranks.
pub open spec fn selected_sum(actual: Seq<u64>, ranking: Seq<usize>, k: nat) -> int
    decreases k,
{
    if k == 0 {
        0
    } else {
        selected_sum(actual, ranking, (k - 1) as nat) + actual[ranking[k - 1] as int]
    }
}

/// How many observed blocks fell into the top `k` figures of a ranking.
pub fn selected_count(actual: &[u64; 8], ranking: &[usize; 8], k: usize) -> (r: u64)
    requires
        k <= 8,
        forall|i: int| 0 <= i < k ==> #[trigger] ranking@[i] < 8,
        forall|j: nat| j <= k ==> #[trigger] selected_sum(actual@, ranking@, j) <= u64::MAX,
    ensures
        r == selected_sum(actual@, ranking@, k as nat),
{
    let mut total: u64 = 0;
    let mut i: usize = 0;
    while i < k
        invariant
            i <= k <= 8,
            forall|i: int| 0 <= i < k ==> #[trigger] ranking@[i] < 8,
            forall|j: nat| j <= k ==> #[trigger] selected_sum(actual@, ranking@, j) <= u64::MAX,
            total == selected_sum(actual@, ranking@, i as nat),
        decreases k - i,
    {
        assert(selected_sum(actual@, ranking@, (i + 1) as nat) <= u64::MAX);
        total = total + actual[ranking[i]];
        i = i + 1;
    }
    total
}

/// Why a figure could not be parsed.
#[derive(Debug, Clone, Copy, PartialEq, Eq, Structural)]
pub enum ParseStateError {
    Empty,
    InvalidDigit,
    Overflow,
}

/// The digits after an optional leading `+`.
pub open spec fn unsigned_digits(s: Seq<char>) -> Seq<char> {
    if s.len() > 0 && s[0] == '+' {
        s.drop_first()
    } else {
        s
    }
}

pub open spec fn all_binary(d: Seq<char>) -> bool {
    forall|i: int| 0 <= i < d.len() ==> (#[trigger] d[i] == '0' || d[i] == '1')
}

/// The number written by binary digits.
pub open spec fn binary_value(d: Seq<char>) -> nat
    decreases d.len(),
{
    if d.len() == 0 {
        0
    } else {
        binary_value(d.drop_last()) * 2 + (if d.last() == '1' {
            1nat
        } else {
            0nat
        })
    }
}

/// What `u8::from_str_radix(s, 2)` accepts: an optional `+`, then one or
/// more binary digits whose value fits in a byte.
pub open spec fn parses_as_u8_binary(s: Seq<char>) -> bool {
    let d = unsigned_digits(s);
    &&& d.len() > 0
    &&& all_binary(d)
    &&& binary_value(d) < 256
}

proof fn lemma_binary_value_prefix_le(d: Seq<char>, k: int)
    requires
        0 <= k <= d.len(),
    ensures
        binary_value(d.take(k)) <= binary_value(d),
    decreases d.len(),
{
    if k < d.len() {
        lemma_binary_value_prefix_le(d.drop_last(), k);
        assert(d.drop_last().take(k) =~= d.take(k));
    } else {
        assert(d.take(k) =~= d);
    }
}

/// Reading the digits left to right, a character that is not a binary
/// digit is met while the value read so far still fits in a byte (or there
/// are no digits at all after the sign).
pub open spec fn invalid_digit_first(s: Seq<char>) -> bool {
    let d = unsigned_digits(s);
    ||| s.len() > 0 && d.len() == 0
    ||| exists|i: int| 0 <= i < d.len() && !(d[i] == '0' || d[i] == '1') && all_binary(
        #[trigger] d.take(i),
    ) && binary_value(d.take(i)) < 256
}

/// Parses a figure written in binary, as `u8::from_str_radix(s, 2)` does.
pub fn parse_binary_state(s: &str) -> (r: Result<u8, ParseStateError>)
    ensures
        r is Ok <==> parses_as_u8_binary(s@),
        r matches Ok(v) ==> v == binary_value(unsigned_digits(s@)),
        r == Err::<u8, ParseStateError>(ParseStateError::Empty) <==> s@.len() == 0,
        r == Err::<u8, ParseStateError>(ParseStateError::InvalidDigit) <==> invalid_digit_first(s@),
{
    let n = s.unicode_len();
    if n == 0 {
        return Err(ParseStateError::Empty);
    }
    let mut i: usize = 0;
    if s.get_char(0) == '+' {
        if n == 1 {
            return Err(ParseStateError::InvalidDigit);
        }
        i = 1;
    }
    let start = i;
    let ghost d = unsigned_digits(s@);
    assert(d =~= s@.subrange(start as int, n as int));
    let mut value: u32 = 0;
    while i < n
        invariant
            n == s@.len(),
            start <= i <= n,
            d == s@.subrange(start as int, n as int),
            d == unsigned_digits(s@),
            d.len() > 0,
            all_binary(d.take(i - start)),
            value == binary_value(d.take(i - start)),
            value < 256,
        decreases n - i,
    {
        let c = s.get_char(i);
        let k = i - start;
        assert(d[k as int] == c);
        assert(d.take(k + 1).drop_last() =~= d.take(k as int));
        if c == '0' {
            value = value * 2;
        } else if c == '1' {
            value = value * 2 + 1;
        } else {
            assert(!all_binary(d));
            assert(all_binary(d.take(k as int)) && binary_value(d.take(k as int)) < 256);
            return Err(ParseStateError::InvalidDigit);
        }
        i = i + 1;
        assert(all_binary(d.take(i - start)));
        if value > 255 {
            proof {
                if all_binary(d) {
                    lemma_binary_value_prefix_le(d, (i - start) as int);
                }
                let j = (i - start) as int;
                assert forall|x: int| 0 <= x < d.len() && !(d[x] == '0' || d[x] == '1') && all_binary(
                    #[trigger] d.take(x)) implies binary_value(d.take(x)) >= 256 by {
                    if x < j {
                        assert(d.take(j)[x] == d[x]);
                    } else {
                        lemma_binary_value_prefix_le(d.take(x), j);
                        assert(d.take(x).take(j) =~= d.take(j));
                    }
                }
            }
            return Err(ParseStateError::Overflow);
        }
    }
    assert(d.take(n - start) =~= d);
    assert forall|x: int| 0 <= x < d.len() implies (d[x] == '0' || d[x] == '1') by {
        assert(d.take(n - start)[x] == d[x]);
    }
    Ok(value as u8)
}

/// One observed block.
#[derive(Debug, Clone, Copy)]
pub struct Sample {
    pub height: u64,
    pub nonce: u32,
    pub l9: u8,
}

/// Number of samples whose L9 figure is `k`.
pub open spec fn count_l9(samples: Seq<Sample>, k: u8) -> nat
    decreases samples.len(),
{
    if samples.len() == 0 {
        0
    } else {
        count_l9(samples.drop_last(), k) + (if samples.last().l9 == k {
            1nat
        } else {
            0nat
        })
    }
}

/// How many samples carry each L9 figure.
pub fn l9_distribution(samples: &Vec<Sample>) -> (counts: [u64; 8])
    requires
        forall|i: int| 0 <= i < samples@.len() ==> (#[trigger] samples@[i]).l9 < 8,
    ensures
        forall|k: int| 0 <= k < 8 ==> #[trigger] counts@[k] == count_l9(samples@, k as u8),
{
    let mut counts = [0u64; 8];
    let mut i: usize = 0;
    while i < samples.len()
        invariant
            i <= samples@.len(),
            forall|j: int| 0 <= j < samples@.len() ==> (#[trigger] samples@[j]).l9 < 8,
            forall|k: int| 0 <= k < 8 ==> #[trigger] counts@[k] == count_l9(samples@.take(i as int), k as u8),
            forall|k: int| 0 <= k < 8 ==> #[trigger] counts@[k] <= i,
        decreases samples@.len() - i,
    {
        assert(samples@.take(i + 1).drop_last() =~= samples@.take(i as int));
        let l = samples[i].l9 as usize;
        counts[l] = counts[l] + 1;
        i = i + 1;
    }
    assert(samples@.take(samples@.len() as int) =~= samples@);
    counts
}


/// First and last height of the frozen discovery window.
pub const DISCOVERY_START: u64 = 890_000;
pub const DISCOVERY_END: u64 = 890_222;
/// Blocks in the window, and how many of them had nonce bit 7 set.
pub const DISCOVERY_N: u64 = 223;
pub const DISCOVERY_BIT7_ONES: u64 = 72;

pub open spec fn in_discovery(s: Sample) -> bool {
    DISCOVERY_START <= s.height <= DISCOVERY_END
}

pub open spec fn bit7_set(nonce: u32) -> bool {
    (nonce >> 7u32) & 1 == 1
}

/// Samples inside the discovery window, and those among them with bit 7 set.
pub open spec fn discovery_counts(samples: Seq<Sample>) -> (nat, nat)
    decreases samples.len(),
{
    if samples.len() == 0 {
        (0, 0)
    } else {
        let (n, ones) = discovery_counts(samples.drop_last());
        let s = samples.last();
        if in_discovery(s) {
            (n + 1, if bit7_set(s.nonce) { ones + 1 } else { ones })
        } else {
            (n, ones)
        }
    }
}

/// The frozen discovery no longer matches the data.
#[derive(Debug, Clone, Copy, PartialEq, Eq, Structural)]
pub enum DiscoveryError {
    /// The window holds another number of blocks.
    CountChanged { found: u64 },
    /// The window holds another number of bit-7 ones.
    ResultChanged { found: u64 },
}

/// Checks that the frozen discovery window still holds 223 blocks of
/// which 72 have nonce bit 7 set.
pub fn verify_frozen_discovery(samples: &Vec<Sample>) -> (r: Result<(), DiscoveryError>)
    ensures
        ({
            let (n, ones) = discovery_counts(samples@);
            &&& r is Ok <==> (n == DISCOVERY_N && ones == DISCOVERY_BIT7_ONES)
            &&& r matches Err(DiscoveryError::CountChanged { found }) ==> n != DISCOVERY_N && found == n
            &&& r matches Err(DiscoveryError::ResultChanged { found }) ==> n == DISCOVERY_N
                && found == ones && ones != DISCOVERY_BIT7_ONES
        }),
{
    let mut n: u64 = 0;
    let mut ones: u64 = 0;
    let mut i: usize = 0;
    while i < samples.len()
        invariant
            i <= samples@.len(),
            (n as nat, ones as nat) == discovery_counts(samples@.take(i as int)),
            ones <= n <= i,
        decreases samples@.len() - i,
    {
        assert(samples@.take(i + 1).drop_last() =~= samples@.take(i as int));
        let s = samples[i];
        if s.height >= DISCOVERY_START && s.height <= DISCOVERY_END {
            n = n + 1;
            if bit7_is_one(s.nonce) {
                ones = ones + 1;
            }
        }
        i = i + 1;
    }
    assert(samples@.take(samples@.len() as int) =~= samples@);
    if n != DISCOVERY_N {
        return Err(DiscoveryError::CountChanged { found: n });
    }
    if ones != DISCOVERY_BIT7_ONES {
        return Err(DiscoveryError::ResultChanged { found: ones });
    }
    Ok(())
}

/// The eleven figures of a nonce's path as text: the ten 3-bit figures,
/// most significant first, then the final two bits, each as `{:03b}`.
pub fn x1331_state_texts(nonce: u32) -> (r: Vec<String>)
    ensures
        r@.len() == 11,
        forall|l: int| 0 <= l < 10 ==> #[trigger] r@[l]@ == fmt_state_spec(
            crate::nonce::figure_at(nonce, l as nat) as nat,
        ),
        r@[10]@ == fmt_state_spec((nonce & 3) as nat),
{
    let figures = crate::nonce::x1331_states(nonce);
    let mut out: Vec<String> = Vec::new();
    let mut level: usize = 0;
    while level < 11
        invariant
            level <= 11,
            out@.len() == level,
            forall|l: int| 0 <= l < 10 ==> #[trigger] figures@[l] == crate::nonce::figure_at(nonce, l as nat),
            figures@[10] == nonce & 3,
            forall|l: int| 0 <= l < level ==> #[trigger] out@[l]@ == fmt_state_spec(figures@[l] as nat),
        decreases 11 - level,
    {
        out.push(fmt_state(figures[level] as usize));
        level = level + 1;
    }
    assert(out@[10]@ == fmt_state_spec(figures@[10] as nat));
    out
}

/// The samples with a height in `start..=end`, in their order.
pub open spec fn window_seq(samples: Seq<Sample>, start: u64, end: u64) -> Seq<Sample>
    decreases samples.len(),
{
    if samples.len() == 0 {
        samples
    } else {
        let w = window_seq(samples.drop_last(), start, end);
        if start <= samples.last().height <= end {
            w.push(samples.last())
        } else {
            w
        }
    }
}

proof fn lemma_window_members(samples: Seq<Sample>, start: u64, end: u64)
    ensures
        window_seq(samples, start, end).len() <= samples.len(),
        forall|i: int| 0 <= i < window_seq(samples, start, end).len() ==> start <= (#[trigger] window_seq(
            samples,
            start,
            end,
        )[i]).height <= end,
        forall|i: int| 0 <= i < window_seq(samples, start, end).len() ==> exists|j: int|
            0 <= j < samples.len() && samples[j] == #[trigger] window_seq(samples, start, end)[i],
    decreases samples.len(),
{
    if samples.len() > 0 {
        lemma_window_members(samples.drop_last(), start, end);
        let w = window_seq(samples, start, end);
        let w0 = window_seq(samples.drop_last(), start, end);
        assert forall|i: int| 0 <= i < w.len() implies exists|j: int| 0 <= j < samples.len() && samples[j]
            == #[trigger] w[i] by {
            if i < w0.len() {
                let j = choose|j: int| 0 <= j < samples.drop_last().len() && samples.drop_last()[j] == w0[i];
                assert(samples[j] == w[i]);
            } else {
                assert(samples[samples.len() - 1] == w[i]);
            }
        }
    }
}

/// The samples of a window.
pub fn select_window(samples: &Vec<Sample>, start: u64, end: u64) -> (w: Vec<Sample>)
    ensures
        w@ == window_seq(samples@, start, end),
{
    let mut w: Vec<Sample> = Vec::new();
    let mut i: usize = 0;
    while i < samples.len()
        invariant
            i <= samples@.len(),
            w@ == window_seq(samples@.take(i as int), start, end),
        decreases samples@.len() - i,
    {
        assert(samples@.take(i + 1).drop_last() =~= samples@.take(i as int));
        let s = samples[i];
        if start <= s.height && s.height <= end {
            w.push(s);
        }
        i = i + 1;
    }
    assert(samples@.take(samples@.len() as int) =~= samples@);
    w
}

/// Number of samples whose nonce has bit 7 set.
pub open spec fn count_bit7(samples: Seq<Sample>) -> nat
    decreases samples.len(),
{
    if samples.len() == 0 {
        0
    } else {
        count_bit7(samples.drop_last()) + if bit7_set(samples.last().nonce) {
            1nat
        } else {
            0nat
        }
    }
}

/// How many samples have nonce bit 7 set.
pub fn bit7_ones(samples: &Vec<Sample>) -> (r: u64)
    ensures
        r == count_bit7(samples@),
{
    let mut ones: u64 = 0;
    let mut i: usize = 0;
    while i < samples.len()
        invariant
            i <= samples@.len(),
            ones == count_bit7(samples@.take(i as int)),
            ones <= i,
        decreases samples@.len() - i,
    {
        assert(samples@.take(i + 1).drop_last() =~= samples@.take(i as int));
        if bit7_is_one(samples[i].nonce) {
            ones = ones + 1;
        }
        i = i + 1;
    }
    assert(samples@.take(samples@.len() as int) =~= samples@);
    ones
}

/// Whether the observed window matches the heights asked for.
#[derive(Debug, Clone, Copy, PartialEq, Eq, Structural)]
pub enum WindowStatus {
    /// The first or last height differs from the window's bounds.
    Partial,
    /// The bounds match but blocks are missing in between.
    PossibleGaps,
    Complete,
}

/// The blocks of a window: how many, the first and last heights, how many
/// have nonce bit 7 set, their L9 figures, and whether the window is complete.
pub struct WindowSummary {
    pub n: u64,
    pub first_height: u64,
    pub last_height: u64,
    pub ones: u64,
    pub l9: [u64; 8],
    pub status: WindowStatus,
}

/// Summarizes the window `start..=end` of samples in height order; `None`
/// when no sample falls in it.
pub fn window_summary(samples: &Vec<Sample>, start: u64, end: u64) -> (r: Option<WindowSummary>)
    requires
        forall|i: int| 0 <= i < samples@.len() ==> (#[trigger] samples@[i]).l9 < 8,
    ensures
        ({
            let w = window_seq(samples@, start, end);
            &&& r is None <==> w.len() == 0
            &&& r matches Some(s) ==> {
                &&& s.n == w.len()
                &&& s.first_height == w[0].height
                &&& s.last_height == w.last().height
                &&& s.ones == count_bit7(w)
                &&& forall|k: int| 0 <= k < 8 ==> #[trigger] s.l9@[k] == count_l9(w, k as u8)
                &&& s.status == if s.first_height != start || s.last_height != end {
                    WindowStatus::Partial
                } else if s.n != end - start + 1 {
                    WindowStatus::PossibleGaps
                } else {
                    WindowStatus::Complete
                }
            }
        }),
{
    let w = select_window(samples, start, end);
    proof {
        lemma_window_members(samples@, start, end);
        assert forall|i: int| 0 <= i < w@.len() implies (#[trigger] w@[i]).l9 < 8 by {
            let j = choose|j: int| 0 <= j < samples@.len() && samples@[j] == w@[i];
            assert(samples@[j].l9 < 8);
        }
    }
    if w.len() == 0 {
        return None;
    }
    let n = w.len() as u64;
    let first_height = w[0].height;
    let last_height = w[w.len() - 1].height;
    let ones = bit7_ones(&w);
    let l9 = l9_distribution(&w);
    let status = if first_height != start || last_height != end {
        WindowStatus::Partial
    } else if n as u128 != (end - start) as u128 + 1 {
        WindowStatus::PossibleGaps
    } else {
        WindowStatus::Complete
    };
    Some(WindowSummary { n, first_height, last_height, ones, l9, status })
}

/// Figure-text law: a figure written by `fmt_state` parses back, as
/// `parse_binary_state` reads it, to the same figure.
pub proof fn lemma_fmt_state_parses_back(n: nat)
    requires
        n < 8,
    ensures
        parses_as_u8_binary(fmt_state_spec(n)),
        binary_value(unsigned_digits(fmt_state_spec(n))) == n,
{
    let d = fmt_state_spec(n);
    let b0 = digit_char(n / 4);
    let b1 = digit_char((n / 2) % 2);
    let b2 = digit_char(n % 2);
    reveal_with_fuel(binary_digits, 4);
    assert(d =~= seq![b0, b1, b2]);
    assert(unsigned_digits(d) == d);
    assert(d.drop_last() =~= seq![b0, b1]);
    assert(d.drop_last().drop_last() =~= seq![b0]);
    assert(d.drop_last().drop_last().drop_last() =~= Seq::<char>::empty());
    reveal_with_fuel(binary_value, 4);
    assert(all_binary(d));
}

} // verus!
