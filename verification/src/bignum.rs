//! Byte strings read as unsigned integers.
use vstd::prelude::*;

verus! {

/// 256 to the power `n`.
pub open spec fn pow256(n: nat) -> nat
    decreases n,
{
    if n == 0 {
        1
    } else {
        256 * pow256((n - 1) as nat)
    }
}

/// The unsigned integer whose big-endian bytes are `s`.
pub open spec fn be_value(s: Seq<u8>) -> nat
    decreases s.len(),
{
    if s.len() == 0 {
        0
    } else {
        be_value(s.drop_last()) * 256 + s.last() as nat
    }
}

/// The unsigned integer whose little-endian bytes are `s`.
pub open spec fn le_value(s: Seq<u8>) -> nat {
    be_value(s.reverse())
}

pub proof fn lemma_pow256_pos(n: nat)
    ensures
        pow256(n) >= 1,
    decreases n,
{
    if n > 0 {
        lemma_pow256_pos((n - 1) as nat);
    }
}

/// A string of `n` bytes holds a value below `256^n`.
pub proof fn lemma_be_value_bound(s: Seq<u8>)
    ensures
        be_value(s) < pow256(s.len()),
    decreases s.len(),
{
    if s.len() > 0 {
        lemma_be_value_bound(s.drop_last());
        let v = be_value(s.drop_last());
        let p = pow256((s.len() - 1) as nat);
        assert(v * 256 + s.last() < p * 256) by (nonlinear_arith)
            requires
                v < p,
                s.last() < 256,
        ;
    }
}

/// Concatenation: the high part is shifted by the length of the low part.
pub proof fn lemma_be_value_concat(x: Seq<u8>, y: Seq<u8>)
    ensures
        be_value(x + y) == be_value(x) * pow256(y.len()) + be_value(y),
    decreases y.len(),
{
    if y.len() == 0 {
        assert(x + y =~= x);
        assert(pow256(y.len()) == 1);
        assert(be_value(y) == 0);
        assert(be_value(x) * 1 == be_value(x));
    } else {
        lemma_be_value_concat(x, y.drop_last());
        assert((x + y).drop_last() =~= x + y.drop_last());
        assert((x + y).last() == y.last());
        let a = be_value(x);
        let p = pow256((y.len() - 1) as nat);
        let b = be_value(y.drop_last());
        let l = y.last() as nat;
        assert(be_value(x + y.drop_last()) == a * p + b);
        assert(be_value(x + y) == be_value(x + y.drop_last()) * 256 + l);
        assert(be_value(y) == b * 256 + l);
        assert(pow256(y.len()) == 256 * p);
        assert((a * p + b) * 256 + l == a * (256 * p) + (b * 256 + l)) by (nonlinear_arith);
    }
}

/// Leading zero bytes do not change the value.
pub proof fn lemma_be_value_leading_zeros(n: nat, y: Seq<u8>)
    ensures
        be_value(zeros(n) + y) == be_value(y),
{
    lemma_be_value_zeros(n);
    lemma_be_value_concat(zeros(n), y);
}

/// `n` zero bytes.
pub open spec fn zeros(n: nat) -> Seq<u8> {
    Seq::new(n, |i: int| 0u8)
}

/// A string of zero bytes is worth zero.
pub proof fn lemma_be_value_zeros(n: nat)
    ensures
        be_value(zeros(n)) == 0,
    decreases n,
{
    if n > 0 {
        assert(zeros(n).drop_last() =~= zeros((n - 1) as nat));
        lemma_be_value_zeros((n - 1) as nat);
    }
}

/// Lexicographic order of equal-length strings is numeric order: if `a`
/// and `b` agree before index `i` and `a[i] < b[i]`, then `a < b`.
pub proof fn lemma_be_value_first_difference(a: Seq<u8>, b: Seq<u8>, i: int)
    requires
        a.len() == b.len(),
        0 <= i < a.len(),
        a.take(i) == b.take(i),
        a[i] < b[i],
    ensures
        be_value(a) < be_value(b),
{
    let n = a.len();
    let rest = (n - i - 1) as nat;
    lemma_be_value_concat(a.take(i + 1), a.skip(i + 1));
    lemma_be_value_concat(b.take(i + 1), b.skip(i + 1));
    assert(a.take(i + 1) + a.skip(i + 1) =~= a);
    assert(b.take(i + 1) + b.skip(i + 1) =~= b);
    assert(a.take(i + 1).drop_last() =~= a.take(i));
    assert(b.take(i + 1).drop_last() =~= b.take(i));
    lemma_be_value_bound(a.skip(i + 1));
    lemma_pow256_pos(rest);
    let ha = be_value(a.take(i + 1));
    let hb = be_value(b.take(i + 1));
    assert(ha < hb);
    let p = pow256(rest);
    let la = be_value(a.skip(i + 1));
    let lb = be_value(b.skip(i + 1));
    assert(ha * p + la < hb * p + lb) by (nonlinear_arith)
        requires
            ha < hb,
            la < p,
            0 <= lb,
    ;
}

} // verus!
