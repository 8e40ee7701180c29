//! Proof-of-work arithmetic: candidate headers, 256-bit targets and their comparisons.
use vstd::prelude::*;
use vstd::string::StringSliceAdditionalSpecFns;
use crate::bignum::be_value;
use crate::bignum::le_value;
use crate::bignum::lemma_be_value_first_difference;
use crate::bignum::lemma_be_value_concat;
use crate::bignum::lemma_be_value_leading_zeros;
use crate::bignum::lemma_be_value_zeros;
use crate::bignum::pow256;
use crate::bignum::zeros;
use crate::hashing::count_leading_zero_bits;
use crate::hashing::leading_zero_bits_spec;
use crate::hashing::sha256;
use crate::hashing::sha256_spec;
use crate::hashing::sha256d;
use crate::hashing::sha256d_spec;

verus! {

/// Little-endian bytes of a 32-bit value.
pub open spec fn u32_le_bytes(x: u32) -> Seq<u8> {
    seq![x as u8, (x >> 8) as u8, (x >> 16) as u8, (x >> 24) as u8]
}

/// An 80-byte header with its nonce field (bytes 76..80) replaced.
pub open spec fn with_nonce(header: Seq<u8>, nonce: u32) -> Seq<u8> {
    header.take(76) + u32_le_bytes(nonce)
}

/// The raw double-SHA256 digest of a header carrying `nonce`.
pub open spec fn header_hash(header: Seq<u8>, nonce: u32) -> Seq<u8> {
    sha256d_spec(with_nonce(header, nonce))
}

/// Double SHA-256 of `header` with its nonce field set to `nonce`.
pub fn sha256d_header(header: &[u8; 80], nonce: u32) -> (r: [u8; 32])
    ensures
        r@ == header_hash(header@, nonce),
{
    let mut h = *header;
    h[76] = #[verifier::truncate] (nonce as u8);
    h[77] = #[verifier::truncate] ((nonce >> 8) as u8);
    h[78] = #[verifier::truncate] ((nonce >> 16) as u8);
    h[79] = #[verifier::truncate] ((nonce >> 24) as u8);
    assert(h@ =~= with_nonce(header@, nonce));
    sha256d(&h)
}

/// Mining difficulty, in leading zero bits, of a "low" hash.
pub const DIFFICULTY_BITS: u32 = 8;

/// Whether a digest starts with at least `DIFFICULTY_BITS` zero bits.
pub fn is_low_hash(hash: &[u8; 32]) -> (r: bool)
    ensures
        r == (leading_zero_bits_spec(hash@) >= DIFFICULTY_BITS),
{
    count_leading_zero_bits(hash) >= DIFFICULTY_BITS
}

/// The digest in the byte order of Bitcoin's 256-bit proof-of-work number.
pub fn bitcoin_pow_be(raw_digest: &[u8; 32]) -> (r: [u8; 32])
    ensures
        r@ == raw_digest@.reverse(),
{
    let mut out = *raw_digest;
    let mut i: usize = 0;
    while i < 32
        invariant
            i <= 32,
            out@.len() == 32,
            forall|j: int| 0 <= j < i ==> #[trigger] out@[j] == raw_digest@[31 - j],
        decreases 32 - i,
    {
        out[i] = raw_digest[31 - i];
        i = i + 1;
    }
    assert(out@ =~= raw_digest@.reverse());
    out
}

/// Leading zero bits of the proof-of-work number of a digest.
pub fn leading_zero_bits_pow(raw_digest: &[u8; 32]) -> (r: u32)
    ensures
        r == leading_zero_bits_spec(raw_digest@.reverse()),
{
    let pow = bitcoin_pow_be(raw_digest);
    count_leading_zero_bits(&pow)
}

/// `be_value(a) < be_value(b)` for 32-byte big-endian numbers.
fn be_less(a: &[u8; 32], b: &[u8; 32]) -> (r: bool)
    ensures
        r == (be_value(a@) < be_value(b@)),
{
    let mut i: usize = 0;
    while i < 32
        invariant
            i <= 32,
            a@.take(i as int) == b@.take(i as int),
        decreases 32 - i,
    {
        if a[i] < b[i] {
            proof {
                lemma_be_value_first_difference(a@, b@, i as int);
            }
            return true;
        }
        if a[i] > b[i] {
            proof {
                lemma_be_value_first_difference(b@, a@, i as int);
            }
            return false;
        }
        assert(a@.take(i + 1) =~= a@.take(i as int).push(a@[i as int]));
        assert(b@.take(i + 1) =~= b@.take(i as int).push(b@[i as int]));
        i = i + 1;
    }
    assert(a@ =~= a@.take(32));
    assert(b@ =~= b@.take(32));
    false
}

/// `be_value(a) <= be_value(b)` for 32-byte big-endian numbers.
fn be_less_eq(a: &[u8; 32], b: &[u8; 32]) -> (r: bool)
    ensures
        r == (be_value(a@) <= be_value(b@)),
{
    !be_less(b, a)
}

/// Whether digest `a` is a strictly better proof of work than digest `b`.
pub fn pow_hash_less(a_raw: &[u8; 32], b_raw: &[u8; 32]) -> (r: bool)
    ensures
        r == (le_value(a_raw@) < le_value(b_raw@)),
{
    let a = bitcoin_pow_be(a_raw);
    let b = bitcoin_pow_be(b_raw);
    be_less(&a, &b)
}

/// Whether a digest meets a big-endian target.
pub fn meets_target(raw_digest: &[u8; 32], target_be: &[u8; 32]) -> (r: bool)
    ensures
        r == (le_value(raw_digest@) <= be_value(target_be@)),
{
    let pow = bitcoin_pow_be(raw_digest);
    be_less_eq(&pow, target_be)
}

/// Whether a digest meets a pool's share target, comparing the digest's
/// bytes from the last one down against the target's from the first one up.
pub fn hash_meets_share_target(hash: &[u8; 32], target_be: &[u8; 32]) -> (r: bool)
    ensures
        r == (le_value(hash@) <= be_value(target_be@)),
{
    let ghost h = hash@.reverse();
    let mut i: usize = 0;
    while i < 32
        invariant
            i <= 32,
            h == hash@.reverse(),
            h.take(i as int) == target_be@.take(i as int),
        decreases 32 - i,
    {
        let hb = hash[31 - i];
        let tb = target_be[i];
        assert(h[i as int] == hb);
        if hb < tb {
            proof {
                lemma_be_value_first_difference(h, target_be@, i as int);
            }
            return true;
        }
        if hb > tb {
            proof {
                lemma_be_value_first_difference(target_be@, h, i as int);
            }
            return false;
        }
        assert(h.take(i + 1) =~= h.take(i as int).push(h[i as int]));
        assert(target_be@.take(i + 1) =~= target_be@.take(i as int).push(target_be@[i as int]));
        i = i + 1;
    }
    assert(h =~= h.take(32));
    assert(target_be@ =~= target_be@.take(32));
    true
}

/// A control figure derived from the job identifier alone.
pub fn deterministic_control_state(job_id: &str) -> (r: usize)
    ensures
        r == sha256_spec(job_id.spec_bytes())[0] & 7,
        r < 8,
{
    let digest = sha256(job_id.as_bytes());
    let b = digest[0];
    proof { crate::bitfacts::lemma_u8_masks(b); }
    (b & 7) as usize
}


/// Exponent byte of a compact ("nBits") target.
pub open spec fn compact_exponent(bits: u32) -> nat {
    (bits >> 24u32) as nat
}

/// Mantissa of a compact target, without its sign bit.
pub open spec fn compact_mantissa(bits: u32) -> nat {
    (bits & 0x007f_ffffu32) as nat
}

/// The number a compact target stands for: `mantissa * 256^(exponent - 3)`,
/// truncated towards zero for exponents below three, and zero when the
/// number would not fit in 32 bytes.
pub open spec fn compact_value(bits: u32) -> nat {
    let e = compact_exponent(bits);
    let m = compact_mantissa(bits);
    if e <= 3 {
        m / pow256((3 - e) as nat)
    } else if e <= 32 {
        m * pow256((e - 3) as nat)
    } else {
        0
    }
}

proof fn lemma_mantissa_bytes(m: u32)
    by (bit_vector)
    requires
        m <= 0x7f_ffffu32,
    ensures
        m / 16777216u32 == 0,
        ((m >> 16u32) & 0xffu32) < 256u32,
        ((m >> 8u32) & 0xffu32) < 256u32,
        (m & 0xffu32) < 256u32,
        ((m >> 8u32) & 0xffu32) == ((m >> 8u32) & 0xffu32),
        (m >> 16u32) < 256u32,
        (m >> 16u32) == m / 65536u32,
        ((m >> 8u32) >> 8u32) < 256u32,
        ((m >> 8u32) >> 8u32) * 256u32 + ((m >> 8u32) & 0xffu32) == m / 256u32,
        ((m >> 16u32) & 0xffu32) * 65536u32 + ((m >> 8u32) & 0xffu32) * 256u32 + (m & 0xffu32) == m,
{
}

proof fn lemma_be_value_two(a: u8, b: u8)
    ensures
        be_value(seq![a, b]) == a * 256 + b,
{
    assert(seq![a, b].drop_last() =~= seq![a]);
    assert(seq![a].drop_last() =~= Seq::<u8>::empty());
    assert(be_value(Seq::<u8>::empty()) == 0);
    assert(be_value(seq![a]) == a);
    assert(be_value(seq![a, b]) == be_value(seq![a]) * 256 + b);
}

proof fn lemma_be_value_three(a: u8, b: u8, c: u8)
    ensures
        be_value(seq![a, b, c]) == a * 65536 + b * 256 + c,
{
    assert(seq![a, b, c].drop_last() =~= seq![a, b]);
    lemma_be_value_two(a, b);
}

/// The 256-bit target that a compact ("nBits") field encodes, big-endian.
pub fn compact_target(bits: u32) -> (target: [u8; 32])
    ensures
        be_value(target@) == compact_value(bits),
{
    let exponent = (bits >> 24) as usize;
    let mantissa = bits & 0x007f_ffff;
    let mut target = [0u8; 32];
    proof {
        assert(mantissa <= 0x7f_ffffu32) by (bit_vector)
            requires mantissa == bits & 0x007f_ffffu32;
        lemma_mantissa_bytes(mantissa);
        reveal_with_fuel(pow256, 4);
        assert(compact_mantissa(bits) == mantissa);
        assert(compact_exponent(bits) == exponent);
    }
    let m0 = ((mantissa >> 16) & 0xff) as u8;
    let m1 = ((mantissa >> 8) & 0xff) as u8;
    let m2 = (mantissa & 0xff) as u8;
    if exponent == 0 {
        // The mantissa shifted right by three bytes is zero.
        proof {
            lemma_be_value_zeros(32);
            assert(target@ =~= zeros(32));
            assert(be_value(target@) == compact_value(bits));
        }
    } else if exponent == 1 {
        let value = mantissa >> 16;
        target[31] = value as u8;
        proof {
            assert(target@ =~= zeros(31) + seq![value as u8]);
            lemma_be_value_leading_zeros(31, seq![value as u8]);
            assert(seq![value as u8].drop_last() =~= Seq::<u8>::empty());
            assert(be_value(Seq::<u8>::empty()) == 0);
            assert(be_value(seq![value as u8]) == value);
            reveal_with_fuel(pow256, 3);
            assert(pow256(2) == 65536);
            assert(be_value(target@) == compact_value(bits));
        }
    } else if exponent == 2 {
        let value = mantissa >> 8;
        target[30] = (value >> 8) as u8;
        target[31] = (value & 0xff) as u8;
        proof {
            assert(target@ =~= zeros(30) + seq![(value >> 8) as u8, (value & 0xff) as u8]);
            lemma_be_value_leading_zeros(30, seq![(value >> 8) as u8, (value & 0xff) as u8]);
            lemma_be_value_two((value >> 8) as u8, (value & 0xff) as u8);
            assert(be_value(target@) == compact_value(bits));
        }
    } else if exponent <= 32 {
        let start = 32 - exponent;
        target[start] = m0;
        target[start + 1] = m1;
        target[start + 2] = m2;
        proof {
            let e = exponent as nat;
            let mb = seq![m0, m1, m2];
            assert(target@ =~= zeros((32 - e) as nat) + (mb + zeros((e - 3) as nat)));
            lemma_be_value_leading_zeros((32 - e) as nat, mb + zeros((e - 3) as nat));
            lemma_be_value_concat(mb, zeros((e - 3) as nat));
            lemma_be_value_zeros((e - 3) as nat);
            lemma_be_value_three(m0, m1, m2);
            assert(m0 as nat == (mantissa >> 16u32) & 0xffu32);
            assert(m1 as nat == (mantissa >> 8u32) & 0xffu32);
            assert(m2 as nat == mantissa & 0xffu32);
            assert(be_value(mb) == mantissa);
            assert(be_value(target@) == be_value(mb) * pow256((e - 3) as nat));
            if e == 3 {
                assert(pow256(0) == 1);
                assert(mantissa as nat / 1 == mantissa as nat);
                assert(mantissa as nat * 1 == mantissa as nat);
            }
            assert(be_value(target@) == compact_value(bits));
        }
    } else {
        proof {
            lemma_be_value_zeros(32);
            assert(target@ =~= zeros(32));
            assert(be_value(target@) == compact_value(bits));
        }
    }
    target
}

/// The pool's difficulty-1 target: `0x00000000ffff0000...00`.
pub open spec fn diff1_target_spec() -> Seq<u8> {
    Seq::new(32, |i: int| if i == 4 || i == 5 { 0xffu8 } else { 0u8 })
}

fn diff1_target() -> (t: [u8; 32])
    ensures
        t@ == diff1_target_spec(),
{
    let mut t = [0u8; 32];
    t[4] = 0xff;
    t[5] = 0xff;
    assert(t@ =~= diff1_target_spec());
    t
}

/// The share target of an integer pool difficulty: the difficulty-1 target
/// divided by `divisor`, rounded down, by long division over its bytes.
pub fn share_target_from_divisor(divisor: u64) -> (target: [u8; 32])
    requires
        divisor > 0,
    ensures
        be_value(target@) == be_value(diff1_target_spec()) / (divisor as nat),
{
    let diff1 = diff1_target();
    let mut target = [0u8; 32];
    let mut remainder: u128 = 0;
    let d = divisor as u128;
    let mut i: usize = 0;
    assert(diff1@.take(0) =~= Seq::<u8>::empty());
    assert(target@.take(0) =~= Seq::<u8>::empty());
    proof {
        assert(be_value(Seq::<u8>::empty()) == 0);
        vstd::arithmetic::div_mod::lemma_small_mod(0, d as nat);
        assert(0nat / (d as nat) == 0) by (nonlinear_arith) requires d > 0;
    }
    while i < 32
        invariant
            i <= 32,
            d == divisor,
            d > 0,
            target@.len() == 32,
            diff1@ == diff1_target_spec(),
            remainder < d,
            remainder == be_value(diff1@.take(i as int)) % (d as nat),
            be_value(target@.take(i as int)) == be_value(diff1@.take(i as int)) / (d as nat),
        decreases 32 - i,
    {
        let byte = diff1[i];
        let r = remainder;
        let b = byte as u128;
        assert((r << 8u128) | b == r * 256 + b) by (bit_vector)
            requires
                r < 0x1_0000_0000_0000_0000u128,
                b < 256u128,
        ;
        let current = (remainder << 8) | byte as u128;
        let q = current / d;
        assert(q < 256) by (nonlinear_arith)
            requires
                current == r * 256 + b,
                r < d,
                b < 256,
                q == current / d,
                d > 0,
        ;
        let ghost old_target = target@;
        target[i] = q as u8;
        remainder = current % d;
        proof {
            let v = be_value(diff1@.take(i as int));
            let qq = v / (d as nat);
            assert(diff1@.take(i + 1).drop_last() =~= diff1@.take(i as int));
            assert(target@.take(i + 1).drop_last() =~= old_target.take(i as int));
            assert(be_value(diff1@.take(i + 1)) == v * 256 + byte);
            assert(be_value(target@.take(i + 1)) == qq * 256 + q);
            vstd::arithmetic::div_mod::lemma_fundamental_div_mod(v as int, d as int);
            vstd::arithmetic::div_mod::lemma_fundamental_div_mod(current as int, d as int);
            assert(v * 256 + byte == (qq * 256 + q) * d + remainder) by (nonlinear_arith)
                requires
                    v == d * qq + r,
                    current == d * q + remainder,
                    current == r * 256 + b,
                    b == byte,
            ;
            vstd::arithmetic::div_mod::lemma_fundamental_div_mod_converse(
                v * 256 + byte, d as int, qq * 256 + q, remainder as int);
        }
        i = i + 1;
    }
    assert(diff1@.take(32) =~= diff1@);
    assert(target@.take(32) =~= target@);
    target
}

/// Share law: a digest meets the share target of difficulty `divisor`
/// exactly when its proof-of-work number times the difficulty is at most
/// the difficulty-1 target.
pub proof fn lemma_share_target_meaning(hash: Seq<u8>, divisor: nat)
    requires
        divisor > 0,
    ensures
        (le_value(hash) <= be_value(diff1_target_spec()) / divisor)
            <==> (le_value(hash) * divisor <= be_value(diff1_target_spec())),
{
    let h = le_value(hash) as int;
    let t = be_value(diff1_target_spec()) as int;
    let dv = divisor as int;
    vstd::arithmetic::div_mod::lemma_fundamental_div_mod(t, dv);
    assert((h <= t / dv) <==> (h * dv <= t)) by (nonlinear_arith)
        requires
            dv > 0,
            t == dv * (t / dv) + t % dv,
            0 <= t % dv < dv,
            h >= 0,
    ;
}


/// Candidate nonces tried for each 3-bit state class.
pub const NONCES_PER_STATE: u32 = 64;

/// The `k`-th candidate digest of state class `s`.
pub open spec fn candidate_hash(header: Seq<u8>, s: nat, k: nat) -> Seq<u8> {
    header_hash(header, (k * 8 + s) as u32)
}

/// Among the first `k` candidates of class `s`, how many have a
/// proof-of-work number with at least eight leading zero bits.
pub open spec fn lz8_count(header: Seq<u8>, s: nat, k: nat) -> nat
    decreases k,
{
    if k == 0 {
        0
    } else {
        lz8_count(header, s, (k - 1) as nat) + (if leading_zero_bits_spec(
            candidate_hash(header, s, (k - 1) as nat).reverse(),
        ) >= 8 {
            1nat
        } else {
            0nat
        })
    }
}

/// Among the first `k` candidates of class `s`, how many meet `target`.
pub open spec fn target_hit_count(header: Seq<u8>, target: Seq<u8>, s: nat, k: nat) -> nat
    decreases k,
{
    if k == 0 {
        0
    } else {
        target_hit_count(header, target, s, (k - 1) as nat) + (if le_value(
            candidate_hash(header, s, (k - 1) as nat),
        ) <= be_value(target) {
            1nat
        } else {
            0nat
        })
    }
}

/// 32 bytes of 0xff: the worst possible digest.
pub open spec fn worst_hash() -> Seq<u8> {
    Seq::new(32, |i: int| 0xffu8)
}

/// Best digest and its nonce among the first `k` candidates of class `s`:
/// the first candidate strictly better than everything before it wins,
/// starting from the worst digest and nonce 0.
pub open spec fn best_of(header: Seq<u8>, s: nat, k: nat) -> (Seq<u8>, u32)
    decreases k,
{
    if k == 0 {
        (worst_hash(), 0u32)
    } else {
        let prev = best_of(header, s, (k - 1) as nat);
        let c = candidate_hash(header, s, (k - 1) as nat);
        if le_value(c) < le_value(prev.0) {
            (c, ((k - 1) * 8 + s) as u32)
        } else {
            prev
        }
    }
}

/// Index of the first of the first `n` digests with the smallest value.
pub open spec fn best_index(bests: Seq<Seq<u8>>, n: nat) -> nat
    decreases n,
{
    if n <= 1 {
        0
    } else {
        let prev = best_index(bests, (n - 1) as nat);
        if le_value(bests[n - 1]) < le_value(bests[prev as int]) {
            (n - 1) as nat
        } else {
            prev
        }
    }
}

/// Outcome of hashing an equal budget of nonces for each state class.
pub struct VerifyResult {
    pub best_state: usize,
    pub best_hash: [u8; 32],
    pub best_nonce: u32,
    pub state_best_hashes: [[u8; 32]; 8],
    pub state_best_nonces: [u32; 8],
    pub state_lz8: [u64; 8],
    pub state_target_hits: [u64; 8],
}

/// Hashes 64 nonces of every state class (the nonces whose low three bits
/// are the class) and reports, per class, the low-hash count, the target
/// hits and the best digest, and the best class overall.
pub fn verify_equal_budget(header_template: &[u8; 80], network_target: &[u8; 32]) -> (r:
    VerifyResult)
    ensures
        forall|s: int| #![trigger r.state_lz8@[s]] 0 <= s < 8 ==> r.state_lz8@[s] == lz8_count(
            header_template@, s as nat, 64),
        forall|s: int| #![trigger r.state_target_hits@[s]] 0 <= s < 8 ==> r.state_target_hits@[s]
            == target_hit_count(header_template@, network_target@, s as nat, 64),
        forall|s: int| #![trigger r.state_best_hashes@[s]] 0 <= s < 8 ==> r.state_best_hashes@[s]@
            == best_of(header_template@, s as nat, 64).0,
        forall|s: int| #![trigger r.state_best_nonces@[s]] 0 <= s < 8 ==> r.state_best_nonces@[s]
            == best_of(header_template@, s as nat, 64).1,
        r.best_state == best_index(Seq::new(8, |s: int| r.state_best_hashes@[s]@), 8),
        r.best_state < 8,
        r.best_hash == r.state_best_hashes@[r.best_state as int],
        r.best_nonce == r.state_best_nonces@[r.best_state as int],
{
    let mut state_best_hashes = [[0xffu8; 32]; 8];
    let mut state_best_nonces = [0u32; 8];
    let mut state_lz8 = [0u64; 8];
    let mut state_target_hits = [0u64; 8];
    assert(state_best_hashes@[0]@ =~= worst_hash());
    let mut state: usize = 0;
    while state < 8
        invariant
            state <= 8,
            forall|s: int| #![trigger state_lz8@[s]] 0 <= s < state ==> state_lz8@[s] == lz8_count(
                header_template@, s as nat, 64),
            forall|s: int| #![trigger state_target_hits@[s]] 0 <= s < state ==> state_target_hits@[s]
                == target_hit_count(header_template@, network_target@, s as nat, 64),
            forall|s: int| #![trigger state_best_hashes@[s]] 0 <= s < state ==> state_best_hashes@[s]@
                == best_of(header_template@, s as nat, 64).0,
            forall|s: int| #![trigger state_best_nonces@[s]] 0 <= s < state ==> state_best_nonces@[s]
                == best_of(header_template@, s as nat, 64).1,
            forall|s: int| #![trigger state_best_hashes@[s]] state <= s < 8 ==> state_best_hashes@[s]@
                == worst_hash(),
            forall|s: int| #![trigger state_best_nonces@[s]] state <= s < 8 ==> state_best_nonces@[s]
                == 0,
            forall|s: int| #![trigger state_lz8@[s]] state <= s < 8 ==> state_lz8@[s] == 0,
            forall|s: int| #![trigger state_target_hits@[s]] state <= s < 8 ==> state_target_hits@[s]
                == 0,
        decreases 8 - state,
    {
        let mut index: u32 = 0;
        while index < NONCES_PER_STATE
            invariant
                state < 8,
                index <= 64,
                forall|s: int| #![trigger state_lz8@[s]] 0 <= s < state ==> state_lz8@[s]
                    == lz8_count(header_template@, s as nat, 64),
                forall|s: int| #![trigger state_target_hits@[s]] 0 <= s < state
                    ==> state_target_hits@[s] == target_hit_count(header_template@, network_target@,
                    s as nat, 64),
                forall|s: int| #![trigger state_best_hashes@[s]] 0 <= s < state
                    ==> state_best_hashes@[s]@ == best_of(header_template@, s as nat, 64).0,
                forall|s: int| #![trigger state_best_nonces@[s]] 0 <= s < state
                    ==> state_best_nonces@[s] == best_of(header_template@, s as nat, 64).1,
                forall|s: int| #![trigger state_best_hashes@[s]] state < s < 8
                    ==> state_best_hashes@[s]@ == worst_hash(),
                forall|s: int| #![trigger state_best_nonces@[s]] state < s < 8
                    ==> state_best_nonces@[s] == 0,
                forall|s: int| #![trigger state_lz8@[s]] state < s < 8 ==> state_lz8@[s] == 0,
                forall|s: int| #![trigger state_target_hits@[s]] state < s < 8
                    ==> state_target_hits@[s] == 0,
                state_lz8@[state as int] == lz8_count(header_template@, state as nat, index as nat),
                state_lz8@[state as int] <= index,
                state_target_hits@[state as int] == target_hit_count(header_template@,
                    network_target@, state as nat, index as nat),
                state_target_hits@[state as int] <= index,
                state_best_hashes@[state as int]@ == best_of(header_template@, state as nat,
                    index as nat).0,
                state_best_nonces@[state as int] == best_of(header_template@, state as nat,
                    index as nat).1,
            decreases 64 - index,
        {
            let nonce = crate::nonce::nonce_for(state, index);
            assert(nonce == index * 8 + state) by {
                assert(index * 8 + state < 0x1_0000_0000);
                vstd::arithmetic::div_mod::lemma_small_mod((index * 8) as nat, 0x1_0000_0000);
                vstd::arithmetic::div_mod::lemma_small_mod((index * 8 + state) as nat, 0x1_0000_0000);
            }
            let hash = sha256d_header(header_template, nonce);
            assert(hash@ == candidate_hash(header_template@, state as nat, index as nat));
            if leading_zero_bits_pow(&hash) >= 8 {
                state_lz8[state] = state_lz8[state] + 1;
            }
            if meets_target(&hash, network_target) {
                state_target_hits[state] = state_target_hits[state] + 1;
            }
            let current_best = state_best_hashes[state];
            if pow_hash_less(&hash, &current_best) {
                state_best_hashes[state] = hash;
                state_best_nonces[state] = nonce;
            }
            index = index + 1;
        }
        state = state + 1;
    }
    let mut best_state: usize = 0;
    let mut s: usize = 1;
    let ghost bests = Seq::new(8, |s: int| state_best_hashes@[s]@);
    while s < 8
        invariant
            1 <= s <= 8,
            bests == Seq::new(8, |s: int| state_best_hashes@[s]@),
            best_state == best_index(bests, s as nat),
            best_state < s,
        decreases 8 - s,
    {
        let a = state_best_hashes[s];
        let b = state_best_hashes[best_state];
        if pow_hash_less(&a, &b) {
            best_state = s;
        }
        s = s + 1;
    }
    VerifyResult {
        best_state,
        best_hash: state_best_hashes[best_state],
        best_nonce: state_best_nonces[best_state],
        state_best_hashes,
        state_best_nonces,
        state_lz8,
        state_target_hits,
    }
}

/// Best-digest law: the best digest of a class is at least as good as
/// every candidate tried for it.
pub proof fn lemma_best_of_is_minimal(header: Seq<u8>, s: nat, k: nat, j: nat)
    requires
        j < k,
    ensures
        le_value(best_of(header, s, k).0) <= le_value(candidate_hash(header, s, j)),
    decreases k,
{
    if j < k - 1 {
        lemma_best_of_is_minimal(header, s, (k - 1) as nat, j);
    }
}

} // verus!
