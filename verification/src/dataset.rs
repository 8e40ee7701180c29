//! Checks on the frozen block datasets, row by row as they are read: the
//! training headers of the live miner and the peer-to-peer holdout file.
use vstd::prelude::*;
use vstd::string::StringSliceAdditionalSpecFns;
use crate::hashing::sha256d;
use crate::hashing::sha256d_spec;
use crate::stratum::hex_decode;
use crate::stratum::hex_encode;
use crate::stratum::hex_encode_spec;
use crate::stratum::hex_field;

verus! {

/// A training header: its height and its 80 bytes with the nonce zeroed.
#[derive(Debug, Clone, Copy)]
pub struct HeaderTemplate {
    pub height: u64,
    pub header: [u8; 80],
}

/// Why the training rows were refused.
#[derive(Debug, Clone, Copy, PartialEq, Eq, Structural)]
pub enum TrainingError {
    /// A row's height is not the next one.
    Chronology { height: u64 },
    /// A row is not marked verified.
    Unverified { height: u64 },
    /// A kept row's header is not hex.
    Hex { height: u64 },
    /// A kept row's header is not 80 bytes.
    BadHeader { height: u64 },
    /// The rows held another number of training headers.
    Count { found: usize },
}

/// Whether to read another row.
#[derive(Debug, Clone, Copy, PartialEq, Eq, Structural)]
pub enum RowStep {
    Continue,
    Stop,
}

/// ASCII upper-case letters lowered, other characters kept.
pub open spec fn ascii_lower(c: char) -> char {
    if 'A' <= c <= 'Z' {
        ((c as u32) + 32) as char
    } else {
        c
    }
}

/// A verified flag: "true", "1" or "yes", in any ASCII case.
pub open spec fn is_yes_word(s: Seq<char>) -> bool {
    let l = s.map_values(|c: char| ascii_lower(c));
    l == "true"@ || l == "1"@ || l == "yes"@
}

fn lower_char(c: char) -> (r: char)
    ensures
        r == ascii_lower(c),
{
    if c >= 'A' && c <= 'Z' {
        ((c as u8) + 32) as char
    } else {
        c
    }
}

/// Whether a verified flag reads "true", "1" or "yes", in any ASCII case.
pub fn is_yes(s: &str) -> (r: bool)
    ensures
        r == is_yes_word(s@),
{
    proof {
        reveal_strlit("true");
        reveal_strlit("1");
        reveal_strlit("yes");
    }
    let n = s.unicode_len();
    let ghost l = s@.map_values(|c: char| ascii_lower(c));
    assert(l.len() == n);
    assert("true"@.len() == 4 && "1"@.len() == 1 && "yes"@.len() == 3);
    if n == 1 {
        let r = lower_char(s.get_char(0)) == '1';
        assert(r ==> l =~= "1"@);
        assert(l =~= "1"@ ==> l[0] == '1');
        r
    } else if n == 3 {
        let r = lower_char(s.get_char(0)) == 'y' && lower_char(s.get_char(1)) == 'e' && lower_char(
            s.get_char(2),
        ) == 's';
        assert(r ==> l =~= "yes"@);
        assert(l =~= "yes"@ ==> l[0] == 'y' && l[1] == 'e' && l[2] == 's');
        r
    } else if n == 4 {
        let r = lower_char(s.get_char(0)) == 't' && lower_char(s.get_char(1)) == 'r' && lower_char(
            s.get_char(2),
        ) == 'u' && lower_char(s.get_char(3)) == 'e';
        assert(r ==> l =~= "true"@);
        assert(l =~= "true"@ ==> l[0] == 't' && l[1] == 'r' && l[2] == 'u' && l[3] == 'e');
        r
    } else {
        false
    }
}

/// The header of a kept row: its bytes with the nonce field (76..80) zeroed.
pub open spec fn template_bytes(b: Seq<u8>) -> Seq<u8> {
    b.take(76) + seq![0u8, 0u8, 0u8, 0u8]
}

/// Selects the training headers of the live miner from dataset rows read in
/// order: heights must run on from `start_height` and every row must be
/// verified where the file has a verified column; of every `stride` rows
/// the first is kept, until `limit` headers are kept.
pub struct TrainingSelector {
    pub start_height: u64,
    pub stride: u64,
    pub limit: usize,
    pub rows: u64,
    pub headers: Vec<HeaderTemplate>,
}

impl TrainingSelector {
    pub open spec fn wf(&self) -> bool {
        &&& self.stride > 0
        &&& self.headers@.len() <= self.limit
    }

    pub fn new(start_height: u64, stride: u64, limit: usize) -> (t: Self)
        requires
            stride > 0,
        ensures
            t.wf(),
            t.start_height == start_height,
            t.stride == stride,
            t.limit == limit,
            t.rows == 0,
            t.headers@.len() == 0,
    {
        TrainingSelector { start_height, stride, limit, rows: 0, headers: Vec::new() }
    }

    /// Takes the next row: its height, its verified flag if the file has
    /// that column, and its header in hex.
    pub fn accept(&mut self, height: u64, verified: Option<&str>, header_hex: &str) -> (r: Result<
        RowStep,
        TrainingError,
    >)
        requires
            old(self).wf(),
            old(self).start_height + old(self).rows < u64::MAX,
        ensures
            final(self).wf(),
            final(self).start_height == old(self).start_height,
            final(self).stride == old(self).stride,
            final(self).limit == old(self).limit,
            height != old(self).start_height + old(self).rows ==> r == Err::<RowStep, TrainingError>(
                TrainingError::Chronology { height },
            ),
            height == old(self).start_height + old(self).rows && (verified matches Some(v)
                && !is_yes_word(v@)) ==> r == Err::<RowStep, TrainingError>(
                TrainingError::Unverified { height },
            ),
            r is Err ==> final(self).rows == old(self).rows && final(self).headers@ == old(self).headers@,
            height == old(self).start_height + old(self).rows && !(verified matches Some(v) && !is_yes_word(
                v@,
            )) ==> {
                if old(self).rows % old(self).stride != 0 {
                    r == Ok::<RowStep, TrainingError>(RowStep::Continue) && final(self).rows == old(
                        self,
                    ).rows + 1 && final(self).headers@ == old(self).headers@
                } else if old(self).headers@.len() >= old(self).limit {
                    r == Ok::<RowStep, TrainingError>(RowStep::Stop) && final(self).rows == old(
                        self,
                    ).rows && final(self).headers@ == old(self).headers@
                } else {
                    match hex_field(header_hex@) {
                        None => r == Err::<RowStep, TrainingError>(TrainingError::Hex { height }),
                        Some(b) => if b.len() != 80 {
                            r == Err::<RowStep, TrainingError>(TrainingError::BadHeader { height })
                        } else {
                            &&& r == Ok::<RowStep, TrainingError>(RowStep::Continue)
                            &&& final(self).rows == old(self).rows + 1
                            &&& final(self).headers@.len() == old(self).headers@.len() + 1
                            &&& final(self).headers@.drop_last() == old(self).headers@
                            &&& final(self).headers@.last().height == height
                            &&& final(self).headers@.last().header@ == template_bytes(b)
                        },
                    }
                }
            },
    {
        if height != self.start_height + self.rows {
            return Err(TrainingError::Chronology { height });
        }
        if let Some(v) = verified {
            if !is_yes(v) {
                return Err(TrainingError::Unverified { height });
            }
        }
        if self.rows % self.stride != 0 {
            self.rows = self.rows + 1;
            return Ok(RowStep::Continue);
        }
        if self.headers.len() >= self.limit {
            return Ok(RowStep::Stop);
        }
        let raw = match hex_decode(header_hex) {
            Ok(b) => b,
            Err(_) => {
                return Err(TrainingError::Hex { height });
            },
        };
        if raw.len() != 80 {
            return Err(TrainingError::BadHeader { height });
        }
        let mut header = [0u8; 80];
        let mut k: usize = 0;
        while k < 76
            invariant
                k <= 76,
                raw@.len() == 80,
                header@.len() == 80,
                forall|x: int| 0 <= x < k ==> #[trigger] header@[x] == raw@[x],
                forall|x: int| k <= x < 80 ==> #[trigger] header@[x] == 0,
            decreases 76 - k,
        {
            header[k] = raw[k];
            k = k + 1;
        }
        assert(header@ =~= template_bytes(raw@));
        self.headers.push(HeaderTemplate { height, header });
        self.rows = self.rows + 1;
        Ok(RowStep::Continue)
    }

    /// The training headers, once every row has been read (or reading stopped).
    pub fn finish(self) -> (r: Result<Vec<HeaderTemplate>, TrainingError>)
        ensures
            self.headers@.len() == self.limit ==> (r matches Ok(v) && v@ == self.headers@),
            self.headers@.len() != self.limit ==> r == Err::<Vec<HeaderTemplate>, TrainingError>(
                TrainingError::Count { found: self.headers@.len() as usize },
            ),
    {
        if self.headers.len() != self.limit {
            return Err(TrainingError::Count { found: self.headers.len() });
        }
        Ok(self.headers)
    }
}

/// Why the holdout file was refused.
#[derive(Debug, Clone, Copy, PartialEq, Eq, Structural)]
pub enum OutputError {
    /// A row's height is not the next one.
    Gap { expected: u64, found: u64 },
    /// A row's verified flag is not exactly "true".
    Unverified { height: u64 },
    /// A row has no block hash.
    MissingHash { height: u64 },
    /// A block hash appears twice.
    Duplicate { height: u64 },
    /// The file holds another number of rows.
    Count { found: u64 },
    /// The last height is not the target height.
    LastHeight { found: u64 },
}

/// Checks the holdout file row by row: heights run on from the start,
/// every row is verified, and no block hash repeats.
pub struct OutputCheck {
    pub expected: u64,
    pub rows: u64,
    pub hashes: Vec<String>,
}

/// Whether `s` is among `hashes`.
pub open spec fn seen_hash(hashes: Seq<String>, s: Seq<char>) -> bool {
    exists|i: int| 0 <= i < hashes.len() && (#[trigger] hashes[i])@ == s
}

fn contains_text(hashes: &Vec<String>, s: &String) -> (r: bool)
    ensures
        r == seen_hash(hashes@, s@),
{
    let mut i: usize = 0;
    while i < hashes.len()
        invariant
            i <= hashes@.len(),
            forall|j: int| 0 <= j < i ==> (#[trigger] hashes@[j])@ != s@,
        decreases hashes@.len() - i,
    {
        if hashes[i] == *s {
            return true;
        }
        i = i + 1;
    }
    false
}

impl OutputCheck {
    pub fn new(start_height: u64) -> (c: Self)
        ensures
            c.expected == start_height,
            c.rows == 0,
            c.hashes@.len() == 0,
    {
        OutputCheck { expected: start_height, rows: 0, hashes: Vec::new() }
    }

    /// Takes the next row: its height, its verified flag and its block hash
    /// (the flag or the hash `None` when the row lacks them).
    pub fn accept(&mut self, height: u64, verified: Option<&str>, hash: Option<&str>) -> (r: Result<
        (),
        OutputError,
    >)
        requires
            old(self).expected < u64::MAX,
            old(self).rows < u64::MAX,
        ensures
            height != old(self).expected ==> r == Err::<(), OutputError>(
                OutputError::Gap { expected: old(self).expected, found: height },
            ),
            height == old(self).expected && !(verified matches Some(v) && v@ == "true"@) ==> r == Err::<
                (),
                OutputError,
            >(OutputError::Unverified { height }),
            height == old(self).expected && (verified matches Some(v) && v@ == "true"@) ==> match hash {
                None => r == Err::<(), OutputError>(OutputError::MissingHash { height }),
                Some(h) => if seen_hash(old(self).hashes@, h@) {
                    r == Err::<(), OutputError>(OutputError::Duplicate { height })
                } else {
                    &&& r is Ok
                    &&& final(self).expected == old(self).expected + 1
                    &&& final(self).rows == old(self).rows + 1
                    &&& final(self).hashes@.len() == old(self).hashes@.len() + 1
                    &&& final(self).hashes@.drop_last() == old(self).hashes@
                    &&& final(self).hashes@.last()@ == h@
                },
            },
            r is Err ==> final(self).expected == old(self).expected && final(self).rows == old(self).rows
                && final(self).hashes@ == old(self).hashes@,
    {
        if height != self.expected {
            return Err(OutputError::Gap { expected: self.expected, found: height });
        }
        let ok = match verified {
            Some(v) => String::from_str(v) == String::from_str("true"),
            None => false,
        };
        if !ok {
            return Err(OutputError::Unverified { height });
        }
        let h = match hash {
            None => {
                return Err(OutputError::MissingHash { height });
            },
            Some(h) => String::from_str(h),
        };
        if contains_text(&self.hashes, &h) {
            return Err(OutputError::Duplicate { height });
        }
        self.hashes.push(h);
        self.expected = self.expected + 1;
        self.rows = self.rows + 1;
        Ok(())
    }

    /// The final checks: the number of rows and the last height.
    pub fn finish(&self, expected_rows: u64, target_height: u64) -> (r: Result<(), OutputError>)
        requires
            self.expected > 0,
        ensures
            self.rows != expected_rows ==> r == Err::<(), OutputError>(
                OutputError::Count { found: self.rows },
            ),
            self.rows == expected_rows && self.expected - 1 != target_height ==> r == Err::<
                (),
                OutputError,
            >(OutputError::LastHeight { found: (self.expected - 1) as u64 }),
            self.rows == expected_rows && self.expected - 1 == target_height ==> r is Ok,
    {
        if self.rows != expected_rows {
            return Err(OutputError::Count { found: self.rows });
        }
        if self.expected - 1 != target_height {
            return Err(OutputError::LastHeight { found: self.expected - 1 });
        }
        Ok(())
    }
}

/// A block hash in the order explorers display it: the digest's bytes
/// reversed, in lower-case hex.
pub fn bitcoin_display_hash(raw_hash: &[u8; 32]) -> (r: String)
    ensures
        r@ == hex_encode_spec(raw_hash@.reverse()),
{
    let mut reversed: Vec<u8> = Vec::new();
    let mut i: usize = 0;
    while i < 32
        invariant
            i <= 32,
            reversed@.len() == i,
            forall|j: int| 0 <= j < i ==> #[trigger] reversed@[j] == raw_hash@[31 - j],
        decreases 32 - i,
    {
        reversed.push(raw_hash[31 - i]);
        i = i + 1;
    }
    assert(reversed@ =~= raw_hash@.reverse());
    hex_encode(reversed.as_slice())
}

/// An ASCII upper-case letter's byte lowered, other bytes kept.
pub open spec fn ascii_lower_byte(b: u8) -> u8 {
    if 65 <= b <= 90 {
        (b + 32) as u8
    } else {
        b
    }
}

/// `str::eq_ignore_ascii_case` on the bytes of two strings.
pub open spec fn eq_ignore_ascii_case(a: Seq<u8>, b: Seq<u8>) -> bool {
    a.len() == b.len() && forall|i: int| 0 <= i < a.len() ==> #[trigger] ascii_lower_byte(a[i])
        == ascii_lower_byte(b[i])
}

fn lower_byte(b: u8) -> (r: u8)
    ensures
        r == ascii_lower_byte(b),
{
    if b >= 65 && b <= 90 {
        b + 32
    } else {
        b
    }
}

fn same_ignoring_case(a: &str, b: &str) -> (r: bool)
    ensures
        r == eq_ignore_ascii_case(a.spec_bytes(), b.spec_bytes()),
{
    let x = a.as_bytes();
    let y = b.as_bytes();
    if x.len() != y.len() {
        return false;
    }
    let mut i: usize = 0;
    while i < x.len()
        invariant
            x@ == a.spec_bytes(),
            y@ == b.spec_bytes(),
            x@.len() == y@.len(),
            i <= x@.len(),
            forall|j: int| 0 <= j < i ==> #[trigger] ascii_lower_byte(x@[j]) == ascii_lower_byte(y@[j]),
        decreases x@.len() - i,
    {
        if lower_byte(x[i]) != lower_byte(y[i]) {
            return false;
        }
        i = i + 1;
    }
    true
}

/// Why a header could not be checked against its block hash.
#[derive(Debug, Clone, Copy, PartialEq, Eq, Structural)]
pub enum VerifyHeaderError {
    /// The header is not hex.
    Hex,
    /// The header is not 80 bytes.
    Length { len: usize },
}

/// Whether a header, in hex, hashes to the expected block hash as
/// explorers display it (letters in either case).
pub fn verify_header(header_hex: &str, expected_block_hash: &str) -> (r: Result<bool, VerifyHeaderError>)
    ensures
        match hex_field(header_hex@) {
            None => r == Err::<bool, VerifyHeaderError>(VerifyHeaderError::Hex),
            Some(b) => if b.len() != 80 {
                r == Err::<bool, VerifyHeaderError>(VerifyHeaderError::Length { len: b.len() as usize })
            } else {
                r == Ok::<bool, VerifyHeaderError>(
                    eq_ignore_ascii_case(
                        vstd::utf8::encode_utf8(hex_encode_spec(sha256d_spec(b).reverse())),
                        expected_block_hash.spec_bytes(),
                    ),
                )
            },
        },
{
    let bytes = match hex_decode(header_hex) {
        Ok(b) => b,
        Err(_) => {
            return Err(VerifyHeaderError::Hex);
        },
    };
    if bytes.len() != 80 {
        return Err(VerifyHeaderError::Length { len: bytes.len() });
    }
    let raw = sha256d(bytes.as_slice());
    Ok(display_hash_matches(&raw, expected_block_hash))
}

/// Whether a digest, shown as explorers show it, is the expected block
/// hash (letters in either case).
pub fn display_hash_matches(raw: &[u8; 32], expected_block_hash: &str) -> (r: bool)
    ensures
        r == eq_ignore_ascii_case(
            vstd::utf8::encode_utf8(hex_encode_spec(raw@.reverse())),
            expected_block_hash.spec_bytes(),
        ),
{
    let calculated = bitcoin_display_hash(raw);
    same_ignoring_case(calculated.as_str(), expected_block_hash)
}

/// Where a resumable download of heights `start..=end` begins.
#[derive(Debug, Clone, Copy, PartialEq, Eq, Structural)]
pub enum ResumePlan {
    /// Download from this height on.
    From(u64),
    /// The file already reaches this height; nothing to do.
    Done(u64),
}

/// Resumes after the last stored height when it lies in `start..end`,
/// stops when it already reaches `end`, and starts over otherwise, so no
/// height is skipped.
pub fn resume_plan(last_stored: Option<u64>, start: u64, end: u64) -> (p: ResumePlan)
    ensures
        p == match last_stored {
            Some(h) => if start <= h && h < end {
                ResumePlan::From((h + 1) as u64)
            } else if h >= end {
                ResumePlan::Done(h)
            } else {
                ResumePlan::From(start)
            },
            None => ResumePlan::From(start),
        },
{
    match last_stored {
        Some(h) => if h >= start && h < end {
            ResumePlan::From(h + 1)
        } else if h >= end {
            ResumePlan::Done(h)
        } else {
            ResumePlan::From(start)
        },
        None => ResumePlan::From(start),
    }
}

/// The last height among a file's first fields that parse as one.
pub fn last_height(first_fields: &Vec<Option<u64>>) -> (r: Option<u64>)
    ensures
        r is None <==> forall|i: int| 0 <= i < first_fields@.len() ==> #[trigger] first_fields@[i] is None,
        r matches Some(h) ==> exists|i: int| 0 <= i < first_fields@.len() && first_fields@[i] == Some(h)
            && forall|j: int| i < j < first_fields@.len() ==> #[trigger] first_fields@[j] is None,
{
    let mut last: Option<u64> = None;
    let mut at: usize = 0;
    let mut i: usize = 0;
    while i < first_fields.len()
        invariant
            i <= first_fields@.len(),
            last is None <==> forall|k: int| 0 <= k < i ==> #[trigger] first_fields@[k] is None,
            last is Some ==> at < i && first_fields@[at as int] == last && forall|j: int| at < j < i
                ==> #[trigger] first_fields@[j] is None,
        decreases first_fields@.len() - i,
    {
        if let Some(h) = first_fields[i] {
            last = Some(h);
            at = i;
        }
        i = i + 1;
    }
    last
}

/// Reads a block hash as explorers display it: 64 hex digits of either
/// case, the bytes in reverse order.
pub fn parse_display_hash(s: &str) -> (r: Option<[u8; 32]>)
    ensures
        r is Some <==> (hex_field(s@) matches Some(b) && b.len() == 32),
        r matches Some(h) ==> h@ == hex_field(s@)->Some_0.reverse(),
{
    let bytes = match hex_decode(s) {
        Ok(b) => b,
        Err(_) => {
            return None;
        },
    };
    if bytes.len() != 32 {
        return None;
    }
    let mut out = [0u8; 32];
    let mut i: usize = 0;
    while i < 32
        invariant
            i <= 32,
            bytes@.len() == 32,
            forall|j: int| 0 <= j < i ==> #[trigger] out@[j] == bytes@[31 - j],
        decreases 32 - i,
    {
        out[i] = bytes[31 - i];
        i = i + 1;
    }
    assert(out@ =~= bytes@.reverse());
    Some(out)
}

/// Display-hash law: what `bitcoin_display_hash` writes, `parse_display_hash`
/// reads back as the same 32 bytes.
pub proof fn lemma_display_hash_round_trip(h: Seq<u8>)
    requires
        h.len() == 32,
    ensures
        hex_field(hex_encode_spec(h.reverse())) matches Some(b) && b.len() == 32 && b.reverse() == h,
{
    crate::stratum::lemma_hex_round_trip(h.reverse());
    assert(h.reverse().reverse() =~= h);
}

/// Why the anchor row of the discovery file cannot be used.
#[derive(Debug, Clone, Copy, PartialEq, Eq, Structural)]
pub enum AnchorError {
    /// The anchor row is not marked exactly "true".
    NotVerified,
    /// The anchor row has no block hash.
    MissingHash,
    /// The anchor's block hash is not 64 hex digits.
    BadHash,
}

/// What one row of the discovery file says about the anchor.
#[derive(Debug, Clone, Copy)]
pub enum AnchorStep {
    /// Not the anchor's height.
    Skip,
    /// The anchor's block hash, in internal byte order.
    Found([u8; 32]),
}

/// Looks at one row of the discovery file for the anchor at `anchor_height`:
/// other heights are skipped; the anchor row must be verified and carry a
/// readable block hash.
pub fn anchor_row(height: u64, anchor_height: u64, verified: Option<&str>, hash: Option<&str>) -> (r:
    Result<AnchorStep, AnchorError>)
    ensures
        height != anchor_height ==> r matches Ok(AnchorStep::Skip),
        height == anchor_height && !(verified matches Some(v) && v@ == "true"@) ==> r == Err::<
            AnchorStep,
            AnchorError,
        >(AnchorError::NotVerified),
        height == anchor_height && (verified matches Some(v) && v@ == "true"@) ==> match hash {
            None => r == Err::<AnchorStep, AnchorError>(AnchorError::MissingHash),
            Some(t) => if hex_field(t@) matches Some(b) && b.len() == 32 {
                r matches Ok(AnchorStep::Found(x)) && x@ == hex_field(t@)->Some_0.reverse()
            } else {
                r == Err::<AnchorStep, AnchorError>(AnchorError::BadHash)
            },
        },
{
    if height != anchor_height {
        return Ok(AnchorStep::Skip);
    }
    let ok = match verified {
        Some(v) => String::from_str(v) == String::from_str("true"),
        None => false,
    };
    if !ok {
        return Err(AnchorError::NotVerified);
    }
    match hash {
        None => Err(AnchorError::MissingHash),
        Some(t) => match parse_display_hash(t) {
            Some(x) => Ok(AnchorStep::Found(x)),
            None => Err(AnchorError::BadHash),
        },
    }
}

} // verus!
