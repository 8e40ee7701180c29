//! Stratum V1 job handling: hex fields, the coinbase Merkle fold and the
//! 80-byte header assembled from a `mining.notify` job.
use vstd::prelude::*;
use vstd::string::StringSliceAdditionalSpecFns;
use vstd::utf8::encode_utf8;
use crate::hashing::sha256d;
use crate::hashing::sha256d_spec;

verus! {

#[verifier::external_type_specification]
#[verifier::external_body]
pub struct ExFromHexError(hex::FromHexError);

/// Whether a byte is an ASCII hex digit (either case).
pub open spec fn is_hex_digit(c: u8) -> bool {
    (48 <= c <= 57) || (65 <= c <= 70) || (97 <= c <= 102)
}

/// Value of an ASCII hex digit.
pub open spec fn hex_digit_value(c: u8) -> nat {
    if 48 <= c <= 57 {
        (c - 48) as nat
    } else if 65 <= c <= 70 {
        (c - 55) as nat
    } else {
        (c - 87) as nat
    }
}

/// What `hex::decode` accepts: an even number of hex digits.
pub open spec fn hex_decodable(s: Seq<u8>) -> bool {
    &&& s.len() % 2 == 0
    &&& forall|i: int| 0 <= i < s.len() ==> #[trigger] is_hex_digit(s[i])
}

/// The bytes that `hex::decode` produces: one per pair of digits.
pub open spec fn hex_decode_spec(s: Seq<u8>) -> Seq<u8> {
    Seq::new(s.len() / 2, |i: int| (hex_digit_value(s[2 * i]) * 16 + hex_digit_value(s[2 * i + 1])) as u8)
}

/// Lower-case hex digit for a value below 16.
pub open spec fn hex_char(n: nat) -> char {
    seq!['0', '1', '2', '3', '4', '5', '6', '7', '8', '9', 'a', 'b', 'c', 'd', 'e', 'f'][n as int]
}

/// What `hex::encode` produces: two lower-case digits per byte, high nibble first.
pub open spec fn hex_encode_spec(b: Seq<u8>) -> Seq<char> {
    Seq::new(2 * b.len(), |i: int| if i % 2 == 0 {
        hex_char((b[i / 2] / 16) as nat)
    } else {
        hex_char((b[i / 2] % 16) as nat)
    })
}

/// Calls `hex::decode`. Trusted: it succeeds exactly on an even number of
/// ASCII hex digits and then returns one byte per pair, high digit first
/// (hex 0.4.3, `FromHex for Vec<u8>`).
#[verifier::external_body]
pub(crate) fn hex_decode(s: &str) -> (r: Result<Vec<u8>, hex::FromHexError>)
    ensures
        r is Ok <==> hex_decodable(s.spec_bytes()),
        r matches Ok(v) ==> v@ == hex_decode_spec(s.spec_bytes()),
{
    hex::decode(s)
}

/// Calls `hex::encode`. Trusted: two lower-case hex digits per byte, high
/// nibble first (hex 0.4.3, `HEX_CHARS_LOWER`).
#[verifier::external_body]
pub(crate) fn hex_encode(b: &[u8]) -> (r: String)
    ensures
        r@ == hex_encode_spec(b@),
{
    hex::encode(b)
}

/// A prevhash that is not 32 bytes long.
#[derive(Debug, Clone, Copy, PartialEq, Eq, Structural)]
pub struct PrevhashError {
    pub len: usize,
}

/// Reverses the bytes inside each 4-byte word, leaving the words in place.
pub open spec fn swap_words(v: Seq<u8>) -> Seq<u8> {
    Seq::new(v.len(), |i: int| v[4 * (i / 4) + 3 - i % 4])
}

/// Converts a Stratum V1 prevhash (eight byte-swapped 32-bit words) to
/// header byte order.
pub fn stratum_prevhash_to_header(v: Vec<u8>) -> (r: Result<[u8; 32], PrevhashError>)
    ensures
        r is Ok <==> v@.len() == 32,
        r matches Ok(out) ==> out@ == swap_words(v@),
        r matches Err(e) ==> e.len == v@.len(),
{
    if v.len() != 32 {
        return Err(PrevhashError { len: v.len() });
    }
    let mut out = [0u8; 32];
    let mut word: usize = 0;
    while word < 8
        invariant
            word <= 8,
            v@.len() == 32,
            forall|i: int| 0 <= i < 4 * word ==> #[trigger] out@[i] == swap_words(v@)[i],
        decreases 8 - word,
    {
        let i = word * 4;
        out[i] = v[i + 3];
        out[i + 1] = v[i + 2];
        out[i + 2] = v[i + 1];
        out[i + 3] = v[i];
        proof {
            assert forall|j: int| i <= j < i + 4 implies #[trigger] out@[j] == swap_words(v@)[j] by {
                assert(j / 4 == word && j % 4 == j - i) by (nonlinear_arith)
                    requires i == word * 4, i <= j < i + 4;
            }
        }
        word = word + 1;
    }
    assert(out@ =~= swap_words(v@));
    Ok(out)
}

/// Word-swap law: converting twice gives the same bytes back.
pub proof fn lemma_swap_words_involution(v: Seq<u8>)
    requires
        v.len() % 4 == 0,
    ensures
        swap_words(swap_words(v)) == v,
{
    assert forall|i: int| 0 <= i < v.len() implies #[trigger] swap_words(swap_words(v))[i] == v[i] by {
        let j = 4 * (i / 4) + 3 - i % 4;
        assert(0 <= j < v.len() && 4 * (j / 4) + 3 - j % 4 == i) by (nonlinear_arith)
            requires
                j == 4 * (i / 4) + 3 - i % 4,
                0 <= i < v.len(),
                v.len() % 4 == 0,
        ;
    }
    assert(swap_words(swap_words(v)) =~= v);
}

fn push_hex_digit(s: &mut String, d: u32)
    requires
        d < 16,
    ensures
        final(s)@ == old(s)@.push(hex_char(d as nat)),
{
    proof {
        reveal_strlit("0");
        reveal_strlit("1");
        reveal_strlit("2");
        reveal_strlit("3");
        reveal_strlit("4");
        reveal_strlit("5");
        reveal_strlit("6");
        reveal_strlit("7");
        reveal_strlit("8");
        reveal_strlit("9");
        reveal_strlit("a");
        reveal_strlit("b");
        reveal_strlit("c");
        reveal_strlit("d");
        reveal_strlit("e");
        reveal_strlit("f");
    }
    let t = match d {
        0 => "0",
        1 => "1",
        2 => "2",
        3 => "3",
        4 => "4",
        5 => "5",
        6 => "6",
        7 => "7",
        8 => "8",
        9 => "9",
        10 => "a",
        11 => "b",
        12 => "c",
        13 => "d",
        14 => "e",
        _ => "f",
    };
    s.append(t);
    assert(final(s)@ =~= old(s)@.push(hex_char(d as nat)));
}

/// `format!("{:08x}", nonce)`: eight lower-case hex digits, most significant first.
pub open spec fn nonce_hex_spec(nonce: u32) -> Seq<char> {
    Seq::new(8, |i: int| hex_char(((nonce >> ((28 - 4 * i) as u32)) & 15) as nat))
}

/// The nonce as submitted to the pool.
pub fn nonce_submit_hex(nonce: u32) -> (r: String)
    ensures
        r@ == nonce_hex_spec(nonce),
{
    let mut s = String::new();
    let mut i: u32 = 0;
    while i < 8
        invariant
            i <= 8,
            s@.len() == i,
            forall|j: int| 0 <= j < i ==> #[trigger] s@[j] == nonce_hex_spec(nonce)[j],
        decreases 8 - i,
    {
        let shift = 28 - 4 * i;
        assert((nonce >> shift) & 15 < 16) by (bit_vector);
        push_hex_digit(&mut s, (nonce >> shift) & 15);
        i = i + 1;
    }
    assert(s@ =~= nonce_hex_spec(nonce));
    s
}

/// An extranonce2 size outside 1..=8.
#[derive(Debug, Clone, Copy, PartialEq, Eq, Structural)]
pub struct Extranonce2SizeError {
    pub size: usize,
}

/// The `size` low bytes of `counter`, most significant first.
pub open spec fn counter_bytes_be(counter: u64, size: nat) -> Seq<u8> {
    Seq::new(size, |i: int| (counter >> ((8 * (size - 1 - i)) as u64)) as u8)
}

/// The extranonce2 field for a counter, as hex of `size` big-endian bytes.
pub fn extranonce2_hex(counter: u64, size: usize) -> (r: Result<String, Extranonce2SizeError>)
    ensures
        r is Ok <==> 1 <= size <= 8,
        r matches Ok(s) ==> s@ == hex_encode_spec(counter_bytes_be(counter, size as nat)),
        r matches Err(e) ==> e.size == size,
{
    if size == 0 || size > 8 {
        return Err(Extranonce2SizeError { size });
    }
    let mut b: Vec<u8> = Vec::new();
    let mut k: usize = 0;
    while k < size
        invariant
            1 <= size <= 8,
            k <= size,
            b@.len() == k,
            forall|j: int| 0 <= j < k ==> #[trigger] b@[j] == counter_bytes_be(counter, size as nat)[j],
        decreases size - k,
    {
        let shift = (8 * (size - 1 - k)) as u64;
        b.push(#[verifier::truncate] ((counter >> shift) as u8));
        k = k + 1;
    }
    assert(b@ =~= counter_bytes_be(counter, size as nat));
    Ok(hex_encode(b.as_slice()))
}

/// Rotates a 32-bit word left.
pub open spec fn rotl32(x: u32, n: u32) -> u32 {
    (x << n) | (x >> ((32 - n) as u32))
}

/// The job-offset hash after mixing the first `k` identifier bytes.
pub open spec fn job_id_mix(id: Seq<u8>, k: nat) -> u32
    decreases k,
{
    if k == 0 {
        0x1331_1331u32
    } else {
        let x = job_id_mix(id, (k - 1) as nat);
        (rotl32(x, 5) ^ (id[k - 1] as u32)).wrapping_mul(0x9E37_79B1)
    }
}

/// The job offset after also mixing the first `k` header bytes.
pub open spec fn header_mix(start: u32, header: Seq<u8>, k: nat) -> u32
    decreases k,
{
    if k == 0 {
        start
    } else {
        rotl32(header_mix(start, header, (k - 1) as nat), 3) ^ (header[k - 1] as u32)
    }
}

/// A per-job nonce offset derived from the job identifier and the first
/// sixteen header bytes.
pub fn job_offset(job_id: &str, header: &[u8; 80]) -> (r: u32)
    ensures
        r == header_mix(job_id_mix(job_id.spec_bytes(), job_id.spec_bytes().len()), header@, 16),
{
    let mut x: u32 = 0x1331_1331;
    let bytes = job_id.as_bytes();
    let mut i: usize = 0;
    while i < bytes.len()
        invariant
            i <= bytes@.len(),
            bytes@ == job_id.spec_bytes(),
            x == job_id_mix(bytes@, i as nat),
        decreases bytes@.len() - i,
    {
        x = ((x << 5) | (x >> 27)) ^ bytes[i] as u32;
        x = x.wrapping_mul(0x9E37_79B1);
        i = i + 1;
    }
    let ghost start = x;
    let mut j: usize = 0;
    while j < 16
        invariant
            j <= 16,
            x == header_mix(start, header@, j as nat),
        decreases 16 - j,
    {
        x = ((x << 3) | (x >> 29)) ^ header[j] as u32;
        j = j + 1;
    }
    x
}


/// The fields of a `mining.notify` job that the header is built from.
pub struct NotifyParams {
    pub prevhash: String,
    pub coinb1: String,
    pub coinb2: String,
    pub merkle_branches: Vec<String>,
    pub version: String,
    pub nbits: String,
    pub ntime: String,
}

/// The text of each field of a job.
pub struct NotifyView {
    pub prevhash: Seq<char>,
    pub coinb1: Seq<char>,
    pub coinb2: Seq<char>,
    pub merkle_branches: Seq<Seq<char>>,
    pub version: Seq<char>,
    pub nbits: Seq<char>,
    pub ntime: Seq<char>,
}

impl View for NotifyParams {
    type V = NotifyView;

    open spec fn view(&self) -> NotifyView {
        NotifyView {
            prevhash: self.prevhash@,
            coinb1: self.coinb1@,
            coinb2: self.coinb2@,
            merkle_branches: self.merkle_branches@.map_values(|b: String| b@),
            version: self.version@,
            nbits: self.nbits@,
            ntime: self.ntime@,
        }
    }
}

/// Why a header could not be assembled from a job.
#[derive(Debug, Clone, Copy, PartialEq, Eq, Structural)]
pub enum HeaderError {
    /// A field was not valid hex.
    Hex,
    /// A Merkle branch was not 32 bytes.
    MerkleBranchLength,
    /// The prevhash was not 32 bytes.
    PrevhashLength,
    /// Version, nTime or nBits was not 4 bytes.
    FieldLength,
}

/// A hex field decoded, or `None` where `hex::decode` fails.
pub open spec fn hex_field(s: Seq<char>) -> Option<Seq<u8>> {
    let b = encode_utf8(s);
    if hex_decodable(b) {
        Some(hex_decode_spec(b))
    } else {
        None
    }
}

/// The Merkle root after folding in the first `branches.len()` branches:
/// each step hashes the running digest followed by the branch.
pub open spec fn fold_branches(root: Seq<u8>, branches: Seq<Seq<char>>) -> Result<Seq<u8>, HeaderError>
    decreases branches.len(),
{
    if branches.len() == 0 {
        Ok(root)
    } else {
        match fold_branches(root, branches.drop_last()) {
            Err(e) => Err(e),
            Ok(m) => match hex_field(branches.last()) {
                None => Err(HeaderError::Hex),
                Some(x) => if x.len() != 32 {
                    Err(HeaderError::MerkleBranchLength)
                } else {
                    Ok(sha256d_spec(m + x))
                },
            },
        }
    }
}

/// The 80-byte header built from a job, or the first error met: hex fields
/// of the coinbase, then the Merkle branches, then version, prevhash (and
/// its length), nTime, nBits, and finally the 4-byte lengths.
pub open spec fn header_spec(extranonce1: Seq<char>, extranonce2: Option<Seq<u8>>, p: NotifyView)
    -> Result<Seq<u8>, HeaderError>
{
    match (hex_field(p.coinb1), hex_field(extranonce1), extranonce2, hex_field(p.coinb2)) {
        (Some(c1), Some(e1), Some(e2), Some(c2)) => {
            match fold_branches(sha256d_spec(c1 + e1 + e2 + c2), p.merkle_branches) {
                Err(e) => Err(e),
                Ok(m) => match (hex_field(p.version), hex_field(p.prevhash)) {
                    (Some(v), Some(ph)) => if ph.len() != 32 {
                        Err(HeaderError::PrevhashLength)
                    } else {
                        match (hex_field(p.ntime), hex_field(p.nbits)) {
                            (Some(t), Some(b)) => if v.len() != 4 || t.len() != 4 || b.len() != 4 {
                                Err(HeaderError::FieldLength)
                            } else {
                                Ok(v.reverse() + swap_words(ph) + m + t.reverse() + b.reverse()
                                    + seq![0u8, 0u8, 0u8, 0u8])
                            },
                            _ => Err(HeaderError::Hex),
                        }
                    },
                    _ => Err(HeaderError::Hex),
                },
            }
        },
        _ => Err(HeaderError::Hex),
    }
}

proof fn lemma_fold_prefix_error(root: Seq<u8>, br: Seq<Seq<char>>, k: int)
    requires
        0 <= k <= br.len(),
        fold_branches(root, br.take(k)) is Err,
    ensures
        fold_branches(root, br) == fold_branches(root, br.take(k)),
    decreases br.len(),
{
    if k < br.len() {
        assert(br.drop_last().take(k) =~= br.take(k));
        lemma_fold_prefix_error(root, br.drop_last(), k);
    } else {
        assert(br.take(k) =~= br);
    }
}

fn decode_field(s: &str) -> (r: Result<Vec<u8>, HeaderError>)
    ensures
        match hex_field(s@) {
            Some(b) => r == Ok::<Vec<u8>, HeaderError>(r->Ok_0) && r->Ok_0@ == b,
            None => r == Err::<Vec<u8>, HeaderError>(HeaderError::Hex),
        },
{
    match hex_decode(s) {
        Ok(v) => Ok(v),
        Err(_) => Err(HeaderError::Hex),
    }
}

fn reversed(v: &Vec<u8>) -> (r: Vec<u8>)
    ensures
        r@ == v@.reverse(),
{
    let mut r: Vec<u8> = Vec::new();
    let n = v.len();
    let mut i: usize = 0;
    while i < n
        invariant
            n == v@.len(),
            i <= n,
            r@.len() == i,
            forall|j: int| 0 <= j < i ==> #[trigger] r@[j] == v@[n - 1 - j],
        decreases n - i,
    {
        r.push(v[n - 1 - i]);
        i = i + 1;
    }
    assert(r@ =~= v@.reverse());
    r
}

fn assemble_header(extranonce1: &str, extranonce2: Result<Vec<u8>, HeaderError>, p: &NotifyParams)
    -> (r: Result<[u8; 80], HeaderError>)
    requires
        extranonce2 is Ok || extranonce2 == Err::<Vec<u8>, HeaderError>(HeaderError::Hex),
    ensures
        ({
            let e2 = match extranonce2 {
                Ok(v) => Some(v@),
                Err(_) => None,
            };
            match header_spec(extranonce1@, e2, p@) {
                Ok(h) => r is Ok && r->Ok_0@ == h,
                Err(e) => r == Err::<[u8; 80], HeaderError>(e),
            }
        }),
{
    let ghost e2spec = match &extranonce2 {
        Ok(v) => Some(v@),
        Err(_) => None,
    };
    let mut coinbase = decode_field(p.coinb1.as_str())?;
    let mut e1 = decode_field(extranonce1)?;
    let mut e2 = extranonce2?;
    let mut c2 = decode_field(p.coinb2.as_str())?;
    coinbase.append(&mut e1);
    coinbase.append(&mut e2);
    coinbase.append(&mut c2);
    let root = sha256d(coinbase.as_slice());
    let ghost root_spec = root@;
    assert(forall|e: HeaderError| fold_branches(root_spec, p@.merkle_branches) == Err::<Seq<u8>, HeaderError>(e)
        ==> #[trigger] header_spec(extranonce1@, e2spec, p@) == Err::<Seq<u8>, HeaderError>(e));
    let mut merkle = root;
    let branches = &p.merkle_branches;
    let ghost bv = p@.merkle_branches;
    let mut i: usize = 0;
    assert(bv.take(0) =~= Seq::<Seq<char>>::empty());
    while i < branches.len()
        invariant
            i <= branches@.len(),
            branches@ == p.merkle_branches@,
            bv == p@.merkle_branches,
            bv.len() == branches@.len(),
            e2spec == (match extranonce2 {
                Ok(v) => Some(v@),
                Err(_) => None,
            }),
            fold_branches(root_spec, bv.take(i as int)) == Ok::<Seq<u8>, HeaderError>(merkle@),
            forall|e: HeaderError| fold_branches(root_spec, bv) == Err::<Seq<u8>, HeaderError>(e)
                ==> #[trigger] header_spec(extranonce1@, e2spec, p@) == Err::<Seq<u8>, HeaderError>(e),
        decreases branches@.len() - i,
    {
        assert(bv.take(i + 1).drop_last() =~= bv.take(i as int));
        assert(bv.take(i + 1).last() == branches@[i as int]@);
        let mut branch = match decode_field(branches[i].as_str()) {
            Ok(x) => x,
            Err(e) => {
                proof {
                    lemma_fold_prefix_error(root_spec, bv, (i + 1) as int);
                }
                return Err(e);
            },
        };
        if branch.len() != 32 {
            proof {
                lemma_fold_prefix_error(root_spec, bv, (i + 1) as int);
            }
            return Err(HeaderError::MerkleBranchLength);
        }
        let mut combined: Vec<u8> = Vec::new();
        let mut k: usize = 0;
        while k < 32
            invariant
                k <= 32,
                combined@ == merkle@.take(k as int),
            decreases 32 - k,
        {
            combined.push(merkle[k]);
            k = k + 1;
            assert(combined@ =~= merkle@.take(k as int));
        }
        assert(merkle@.take(32) =~= merkle@);
        combined.append(&mut branch);
        merkle = sha256d(combined.as_slice());
        i = i + 1;
    }
    assert(bv.take(bv.len() as int) =~= bv);
    let version = decode_field(p.version.as_str())?;
    let prevhash_bytes = decode_field(p.prevhash.as_str())?;
    let prevhash = match stratum_prevhash_to_header(prevhash_bytes) {
        Ok(x) => x,
        Err(_) => {
            return Err(HeaderError::PrevhashLength);
        },
    };
    let ntime = decode_field(p.ntime.as_str())?;
    let nbits = decode_field(p.nbits.as_str())?;
    if version.len() != 4 || ntime.len() != 4 || nbits.len() != 4 {
        return Err(HeaderError::FieldLength);
    }
    let v = reversed(&version);
    let t = reversed(&ntime);
    let b = reversed(&nbits);
    let ghost whole = v@ + prevhash@ + merkle@ + t@ + b@ + seq![0u8, 0u8, 0u8, 0u8];
    let mut header = [0u8; 80];
    let mut j: usize = 0;
    while j < 80
        invariant
            j <= 80,
            v@.len() == 4,
            t@.len() == 4,
            b@.len() == 4,
            whole == v@ + prevhash@ + merkle@ + t@ + b@ + seq![0u8, 0u8, 0u8, 0u8],
            forall|x: int| 0 <= x < j ==> #[trigger] header@[x] == whole[x],
        decreases 80 - j,
    {
        let byte = if j < 4 {
            v[j]
        } else if j < 36 {
            prevhash[j - 4]
        } else if j < 68 {
            merkle[j - 36]
        } else if j < 72 {
            t[j - 68]
        } else if j < 76 {
            b[j - 72]
        } else {
            0u8
        };
        header[j] = byte;
        j = j + 1;
    }
    assert(header@ =~= whole);
    Ok(header)
}

/// Builds the mining header for a job with an all-zero extranonce2 of
/// `extranonce2_size` bytes; also returns that extranonce2 in hex.
pub fn build_header(extranonce1: &str, extranonce2_size: usize, p: &NotifyParams) -> (r: Result<
    ([u8; 80], String),
    HeaderError,
>)
    ensures
        match header_spec(extranonce1@, Some(Seq::new(extranonce2_size as nat, |i: int| 0u8)), p@) {
            Ok(h) => r is Ok && r->Ok_0.0@ == h && r->Ok_0.1@ == hex_encode_spec(
                Seq::new(extranonce2_size as nat, |i: int| 0u8),
            ),
            Err(e) => r == Err::<([u8; 80], String), HeaderError>(e),
        },
{
    let mut extranonce2: Vec<u8> = Vec::new();
    let mut k: usize = 0;
    while k < extranonce2_size
        invariant
            k <= extranonce2_size,
            extranonce2@ == Seq::new(k as nat, |i: int| 0u8),
        decreases extranonce2_size - k,
    {
        extranonce2.push(0u8);
        k = k + 1;
        assert(extranonce2@ =~= Seq::new(k as nat, |i: int| 0u8));
    }
    let ex2_hex = hex_encode(extranonce2.as_slice());
    let header = assemble_header(extranonce1, Ok(extranonce2), p)?;
    Ok((header, ex2_hex))
}

/// Builds the mining header for a job with the given extranonce2, in hex.
pub fn build_header_with_extranonce2(extranonce1: &str, extranonce2_hex: &str, p: &NotifyParams)
    -> (r: Result<[u8; 80], HeaderError>)
    ensures
        match header_spec(extranonce1@, hex_field(extranonce2_hex@), p@) {
            Ok(h) => r is Ok && r->Ok_0@ == h,
            Err(e) => r == Err::<[u8; 80], HeaderError>(e),
        },
{
    let e2 = decode_field(extranonce2_hex);
    assemble_header(extranonce1, e2, p)
}


/// Why an 80-byte header could not be read from hex.
#[derive(Debug, Clone, Copy, PartialEq, Eq, Structural)]
pub enum DecodeHexError {
    /// The text is not 160 bytes long.
    Length { len: usize },
    /// The pair of characters for byte `index` is not a base-16 number.
    InvalidDigit { index: usize },
}

/// `u8::from_str_radix` in base 16 of a two-character string: either two
/// hex digits, or `+` followed by one.
pub open spec fn radix16_pair(a: u8, b: u8) -> Option<u8> {
    if a == 43 {
        if is_hex_digit(b) {
            Some(hex_digit_value(b) as u8)
        } else {
            None
        }
    } else if is_hex_digit(a) && is_hex_digit(b) {
        Some((hex_digit_value(a) * 16 + hex_digit_value(b)) as u8)
    } else {
        None
    }
}

/// Every pair of 160 bytes parses.
pub open spec fn header_hex_ok(b: Seq<u8>) -> bool {
    &&& b.len() == 160
    &&& forall|i: int| 0 <= i < 80 ==> #[trigger] radix16_pair(b[2 * i], b[2 * i + 1]) is Some
}

fn hex_digit(c: u8) -> (r: Option<u8>)
    ensures
        r is Some <==> is_hex_digit(c),
        r matches Some(v) ==> v == hex_digit_value(c),
{
    if c >= 48 && c <= 57 {
        Some(c - 48)
    } else if c >= 65 && c <= 70 {
        Some(c - 55)
    } else if c >= 97 && c <= 102 {
        Some(c - 87)
    } else {
        None
    }
}

fn pair_value(a: u8, b: u8) -> (r: Option<u8>)
    ensures
        r == radix16_pair(a, b),
{
    if a == 43 {
        match hex_digit(b) {
            Some(v) => Some(v),
            None => None,
        }
    } else {
        match (hex_digit(a), hex_digit(b)) {
            (Some(x), Some(y)) => Some(x * 16 + y),
            _ => None,
        }
    }
}

/// Reads a header written as 160 characters, two per byte, each pair read
/// as a base-16 number.
pub fn decode_hex_80(s: &str) -> (r: Result<[u8; 80], DecodeHexError>)
    requires
        s.spec_bytes().len() == 160 ==> forall|i: int| 0 <= i <= 80
            ==> #[trigger] vstd::utf8::is_char_boundary(s.spec_bytes(), 2 * i),
    ensures
        r is Ok <==> header_hex_ok(s.spec_bytes()),
        r matches Ok(h) ==> forall|i: int| 0 <= i < 80 ==> #[trigger] h@[i] == radix16_pair(
            s.spec_bytes()[2 * i],
            s.spec_bytes()[2 * i + 1],
        )->Some_0,
        r matches Err(DecodeHexError::Length { len }) ==> len == s.spec_bytes().len() && len != 160,
        r matches Err(DecodeHexError::InvalidDigit { index }) ==> index < 80 && radix16_pair(
            s.spec_bytes()[2 * index as int],
            s.spec_bytes()[2 * index as int + 1],
        ) is None && forall|j: int| 0 <= j < index ==> #[trigger] radix16_pair(
            s.spec_bytes()[2 * j],
            s.spec_bytes()[2 * j + 1],
        ) is Some,
{
    let bytes = s.as_bytes();
    if bytes.len() != 160 {
        return Err(DecodeHexError::Length { len: bytes.len() });
    }
    let mut out = [0u8; 80];
    let mut i: usize = 0;
    while i < 80
        invariant
            i <= 80,
            bytes@ == s.spec_bytes(),
            bytes@.len() == 160,
            forall|j: int| 0 <= j < i ==> #[trigger] radix16_pair(bytes@[2 * j], bytes@[2 * j + 1])
                is Some,
            forall|j: int| 0 <= j < i ==> #[trigger] out@[j] == radix16_pair(bytes@[2 * j],
                bytes@[2 * j + 1])->Some_0,
        decreases 80 - i,
    {
        match pair_value(bytes[2 * i], bytes[2 * i + 1]) {
            Some(v) => {
                out[i] = v;
            },
            None => {
                return Err(DecodeHexError::InvalidDigit { index: i });
            },
        }
        i = i + 1;
    }
    Ok(out)
}

/// Why a hex field of fixed size could not be read.
#[derive(Debug, Clone, Copy, PartialEq, Eq, Structural)]
pub enum HexFieldError {
    /// Not valid hex.
    Hex,
    /// Valid hex of another number of bytes.
    Length { len: usize },
}

/// The nonce of a header given in hex: its bytes 76..80, little-endian.
pub fn nonce_from_header(header_hex: &str) -> (r: Result<u32, HexFieldError>)
    ensures
        match hex_field(header_hex@) {
            None => r == Err::<u32, HexFieldError>(HexFieldError::Hex),
            Some(b) => if b.len() != 80 {
                r == Err::<u32, HexFieldError>(HexFieldError::Length { len: b.len() as usize })
            } else {
                r == Ok::<u32, HexFieldError>(
                    (b[76] + b[77] * 0x100 + b[78] * 0x1_0000 + b[79] * 0x100_0000) as u32,
                )
            },
        },
{
    let bytes = match hex_decode(header_hex) {
        Ok(b) => b,
        Err(_) => {
            return Err(HexFieldError::Hex);
        },
    };
    if bytes.len() != 80 {
        return Err(HexFieldError::Length { len: bytes.len() });
    }
    Ok(bytes[76] as u32 + bytes[77] as u32 * 0x100 + bytes[78] as u32 * 0x1_0000 + bytes[79] as u32
        * 0x100_0000)
}

/// A Stratum prevhash in the display order of block explorers: each 4-byte
/// word byte-reversed, then the whole string reversed, in hex.
pub fn canonical_prevhash(stratum: &str) -> (r: Result<String, HexFieldError>)
    ensures
        match hex_field(stratum@) {
            None => r == Err::<String, HexFieldError>(HexFieldError::Hex),
            Some(b) => if b.len() != 32 {
                r == Err::<String, HexFieldError>(HexFieldError::Length { len: b.len() as usize })
            } else {
                r is Ok && r->Ok_0@ == hex_encode_spec(swap_words(b).reverse())
            },
        },
{
    let raw = match hex_decode(stratum) {
        Ok(b) => b,
        Err(_) => {
            return Err(HexFieldError::Hex);
        },
    };
    if raw.len() != 32 {
        return Err(HexFieldError::Length { len: raw.len() });
    }
    let ghost b = raw@;
    let swapped = match stratum_prevhash_to_header(raw) {
        Ok(x) => x,
        Err(_) => {
            return Err(HexFieldError::Length { len: 0 });
        },
    };
    let mut out: Vec<u8> = Vec::new();
    let mut i: usize = 0;
    while i < 32
        invariant
            i <= 32,
            swapped@ == swap_words(b),
            b.len() == 32,
            out@.len() == i,
            forall|j: int| 0 <= j < i ==> #[trigger] out@[j] == swapped@[31 - j],
        decreases 32 - i,
    {
        out.push(swapped[31 - i]);
        i = i + 1;
    }
    assert(out@ =~= swap_words(b).reverse());
    Ok(hex_encode(out.as_slice()))
}

/// A lower-case hex digit is an ASCII hex digit with its own value.
proof fn lemma_hex_char(n: nat)
    requires
        n < 16,
    ensures
        '0' <= hex_char(n) <= 'f',
        is_hex_digit(hex_char(n) as u8),
        hex_digit_value(hex_char(n) as u8) == n,
{
    assert(hex_char(n) == seq!['0', '1', '2', '3', '4', '5', '6', '7', '8', '9', 'a', 'b', 'c', 'd', 'e', 'f'][n as int]);
}

/// Hex law: the hex that the library writes reads back as the same bytes.
pub proof fn lemma_hex_round_trip(b: Seq<u8>)
    ensures
        hex_field(hex_encode_spec(b)) == Some(b),
{
    let s = hex_encode_spec(b);
    assert forall|i: int| 0 <= i < s.len() implies '\0' <= #[trigger] s[i] <= '\u{7f}' by {
        if i % 2 == 0 {
            lemma_hex_char((b[i / 2] / 16) as nat);
        } else {
            lemma_hex_char((b[i / 2] % 16) as nat);
        }
    }
    assert(vstd::utf8::is_ascii_chars(s));
    vstd::utf8::is_ascii_chars_encode_utf8(s);
    let e = encode_utf8(s);
    assert forall|i: int| 0 <= i < e.len() implies #[trigger] is_hex_digit(e[i]) by {
        assert(e[i] == s[i] as u8);
        if i % 2 == 0 {
            lemma_hex_char((b[i / 2] / 16) as nat);
        } else {
            lemma_hex_char((b[i / 2] % 16) as nat);
        }
    }
    assert(e.len() % 2 == 0);
    assert forall|k: int| 0 <= k < b.len() implies #[trigger] hex_decode_spec(e)[k] == b[k] by {
        assert(e[2 * k] == s[2 * k] as u8);
        assert(e[2 * k + 1] == s[2 * k + 1] as u8);
        assert((2 * k) / 2 == k && (2 * k) % 2 == 0 && (2 * k + 1) / 2 == k && (2 * k + 1) % 2 == 1);
        lemma_hex_char((b[k] / 16) as nat);
        lemma_hex_char((b[k] % 16) as nat);
        assert((b[k] / 16) * 16 + b[k] % 16 == b[k]);
    }
    assert(hex_decode_spec(e) =~= b);
}

} // verus!
