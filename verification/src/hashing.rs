//! Double-SHA256 evaluation of a header followed by a 64-bit nonce.
use vstd::prelude::*;
use sha2::Digest;
use sha2::Sha256;

verus! {

/// The SHA-256 digest of `data`, as computed by the `sha2` crate.
pub uninterp spec fn sha256_spec(data: Seq<u8>) -> Seq<u8>;

/// Calls `sha2::Sha256::digest`. Trusted: the 32 returned bytes are
/// `sha256_spec` of the input bytes.
#[verifier::external_body]
pub(crate) fn sha256(data: &[u8]) -> (r: [u8; 32])
    ensures
        r@ == sha256_spec(data@),
{
    Sha256::digest(data).into()
}

/// SHA-256 applied twice.
pub open spec fn sha256d_spec(data: Seq<u8>) -> Seq<u8> {
    sha256_spec(sha256_spec(data))
}

/// Double SHA-256 of `data`.
pub fn sha256d(data: &[u8]) -> (r: [u8; 32])
    ensures
        r@ == sha256d_spec(data@),
{
    let first = sha256(data);
    sha256(&first)
}

/// Little-endian bytes of a 64-bit value.
pub open spec fn u64_le_bytes(x: u64) -> Seq<u8> {
    seq![x as u8, (x >> 8) as u8, (x >> 16) as u8, (x >> 24) as u8, (x >> 32) as u8,
        (x >> 40) as u8, (x >> 48) as u8, (x >> 56) as u8]
}

/// Number of leading zero bits of a big-endian byte string.
pub open spec fn leading_zero_bits_spec(s: Seq<u8>) -> nat
    decreases s.len(),
{
    if s.len() == 0 {
        0
    } else if s[0] == 0 {
        8 + leading_zero_bits_spec(s.drop_first())
    } else {
        s[0].leading_zeros() as nat
    }
}

/// The outcome of one evaluation.
#[derive(Debug, Clone)]
pub struct HashResult {
    pub nonce: u64,
    pub hash: [u8; 32],
    pub leading_zero_bits: u32,
}

/// Evaluates `sha256d(header || nonce_le)` and counts the evaluations made.
pub struct Sha256dVerifier {
    evaluations: u64,
}

impl Sha256dVerifier {
    /// Number of evaluations made so far.
    pub closed spec fn evaluation_count(self) -> nat {
        self.evaluations as nat
    }

    pub fn new() -> (v: Self)
        ensures
            v.evaluation_count() == 0,
    {
        Self { evaluations: 0 }
    }

    pub fn evaluations(&self) -> (r: u64)
        ensures
            r == self.evaluation_count(),
    {
        self.evaluations
    }

    /// Hashes `header` followed by the eight little-endian bytes of `nonce`.
    pub fn evaluate(&mut self, header: &[u8], nonce: u64) -> (r: HashResult)
        requires
            old(self).evaluation_count() < u64::MAX,
            header@.len() + 8 <= usize::MAX,
        ensures
            final(self).evaluation_count() == old(self).evaluation_count() + 1,
            r.nonce == nonce,
            r.hash@ == sha256d_spec(header@ + u64_le_bytes(nonce)),
            r.leading_zero_bits == leading_zero_bits_spec(r.hash@),
    {
        let mut input: Vec<u8> = Vec::new();
        let mut i: usize = 0;
        while i < header.len()
            invariant
                i <= header@.len(),
                input@ == header@.take(i as int),
            decreases header@.len() - i,
        {
            input.push(header[i]);
            i = i + 1;
            assert(input@ =~= header@.take(i as int));
        }
        assert(input@ =~= header@);
        input.push(nonce as u8);
        input.push((nonce >> 8) as u8);
        input.push((nonce >> 16) as u8);
        input.push((nonce >> 24) as u8);
        input.push((nonce >> 32) as u8);
        input.push((nonce >> 40) as u8);
        input.push((nonce >> 48) as u8);
        input.push((nonce >> 56) as u8);
        assert(input@ =~= header@ + u64_le_bytes(nonce));
        let hash = sha256d(input.as_slice());
        self.evaluations = self.evaluations + 1;
        let leading_zero_bits = count_leading_zero_bits(&hash);
        HashResult { nonce, hash, leading_zero_bits }
    }
}

/// Counting law: in a run of verifier states that starts fresh (as `new`
/// leaves it) and where each state follows the one before by one
/// `evaluate`, the state after `i` evaluations reports `i`.
pub proof fn lemma_count_after_run(run: Seq<Sha256dVerifier>)
    requires
        run.len() > 0,
        run[0].evaluation_count() == 0,
        forall|i: int| 1 <= i < run.len() ==> #[trigger] run[i].evaluation_count()
            == run[i - 1].evaluation_count() + 1,
    ensures
        forall|i: int| 0 <= i < run.len() ==> #[trigger] run[i].evaluation_count() == i,
    decreases run.len(),
{
    if run.len() > 1 {
        let shorter = run.drop_last();
        assert forall|i: int| 1 <= i < shorter.len() implies #[trigger] shorter[i].evaluation_count()
            == shorter[i - 1].evaluation_count() + 1 by {
            assert(run[i].evaluation_count() == run[i - 1].evaluation_count() + 1);
        }
        lemma_count_after_run(shorter);
        assert forall|i: int| 0 <= i < run.len() implies #[trigger] run[i].evaluation_count() == i by {
            if i < shorter.len() {
                assert(shorter[i] == run[i]);
            } else {
                assert(shorter[i - 1] == run[i - 1]);
                assert(run[i].evaluation_count() == run[i - 1].evaluation_count() + 1);
            }
        }
    }
}

/// Leading zero bits of a 32-byte hash read as a big-endian number.
pub fn count_leading_zero_bits(hash: &[u8; 32]) -> (r: u32)
    ensures
        r == leading_zero_bits_spec(hash@),
        r <= 256,
{
    let mut total: u32 = 0;
    let mut i: usize = 0;
    assert(hash@.skip(0) =~= hash@);
    while i < 32
        invariant
            i <= 32,
            total == 8 * i,
            forall|j: int| 0 <= j < i ==> hash@[j] == 0,
            leading_zero_bits_spec(hash@) == total + leading_zero_bits_spec(hash@.skip(i as int)),
        decreases 32 - i,
    {
        let byte = hash[i];
        assert(hash@.skip(i as int)[0] == byte);
        assert(hash@.skip(i as int).drop_first() =~= hash@.skip(i + 1));
        if byte == 0 {
            total = total + 8;
        } else {
            proof {
                vstd::std_specs::bits::axiom_u8_leading_zeros(byte);
            }
            total = total + byte.leading_zeros();
            return total;
        }
        i = i + 1;
    }
    assert(hash@.skip(32).len() == 0);
    total
}

} // verus!
