//! Possibility regions of a binary search space and their 1-3-3-1 expansion.
use vstd::prelude::*;
use vstd::arithmetic::power2::pow2;
use vstd::arithmetic::power2::lemma_pow2_adds;
use vstd::arithmetic::power2::lemma_pow2_pos;
use vstd::arithmetic::power2::lemma_pow2_strictly_increases;
use vstd::arithmetic::power2::lemma2_to64;
use vstd::arithmetic::power2::lemma2_to64_rest;
use vstd::arithmetic::mul::lemma_mul_inequality;
use vstd::arithmetic::mul::lemma_mul_is_associative;
use vstd::arithmetic::mul::lemma_mul_is_distributive_add;
use vstd::bits::lemma_u64_shl_is_mul;
use vstd::arithmetic::power2::lemma_pow2_unfold;
use vstd::arithmetic::div_mod::lemma_small_mod;
use vstd::arithmetic::div_mod::lemma_mul_mod_noop_right;

verus! {

/// A set of `total_bits`-bit values whose leading `prefix_bits` bits equal `prefix`.
#[derive(Debug, Clone, Copy)]
pub struct PossibilityRegion {
    pub prefix: u64,
    pub prefix_bits: u8,
    pub total_bits: u8,
}

impl PossibilityRegion {
    /// A region is well formed when the space has at most 63 bits, the
    /// prefix length fits in it and the prefix has no more bits than its
    /// length; then every value of the region fits in a `u64`.
    pub open spec fn wf(self) -> bool {
        &&& self.total_bits <= 63
        &&& self.prefix_bits <= self.total_bits
        &&& self.prefix < pow2(self.prefix_bits as nat)
    }

    pub open spec fn spec_remaining(self) -> nat {
        (self.total_bits - self.prefix_bits) as nat
    }

    /// Number of values in the region.
    pub open spec fn spec_possibilities(self) -> nat {
        pow2(self.spec_remaining())
    }

    /// Smallest value in the region.
    pub open spec fn spec_start(self) -> nat {
        (self.prefix as nat) * self.spec_possibilities()
    }

    /// Largest value in the region.
    pub open spec fn spec_end(self) -> int {
        self.spec_start() + self.spec_possibilities() - 1
    }

    /// The smallest value as the `u64` shift computes it: the low 64 bits of
    /// `prefix * 2^remaining`.
    pub open spec fn shifted_start(self) -> int {
        (self.spec_start() as int) % 0x1_0000_0000_0000_0000
    }

    /// Whether `x` lies in the region.
    pub open spec fn contains(self, x: int) -> bool {
        self.spec_start() <= x <= self.spec_end()
    }

    /// The child region reached by appending the three bits of `value`.
    pub open spec fn spec_child(self, value: u8) -> PossibilityRegion {
        PossibilityRegion {
            prefix: (self.prefix * 8 + value) as u64,
            prefix_bits: (self.prefix_bits + 3) as u8,
            total_bits: self.total_bits,
        }
    }

    /// The whole space of `total_bits`-bit values.
    pub fn root(total_bits: u8) -> (r: Self)
        requires
            0 < total_bits <= 63,
        ensures
            r.prefix == 0,
            r.prefix_bits == 0,
            r.total_bits == total_bits,
            r.wf(),
    {
        proof {
            lemma2_to64();
        }
        Self { prefix: 0, prefix_bits: 0, total_bits }
    }

    pub fn remaining_bits(&self) -> (r: u8)
        requires
            self.prefix_bits <= self.total_bits,
        ensures
            r == self.spec_remaining(),
    {
        self.total_bits - self.prefix_bits
    }

    pub fn possibilities(&self) -> (r: u64)
        requires
            self.prefix_bits <= self.total_bits,
            self.total_bits - self.prefix_bits < 64,
        ensures
            r == self.spec_possibilities(),
    {
        let rem = self.remaining_bits();
        proof {
            lemma_pow2_strictly_increases(rem as nat, 64);
            lemma2_to64_rest();
            lemma_u64_shl_is_mul(1u64, rem as u64);
        }
        1u64 << rem
    }

    pub fn start(&self) -> (r: u64)
        requires
            self.prefix_bits <= self.total_bits,
            self.total_bits - self.prefix_bits < 64,
        ensures
            r == self.shifted_start(),
            self.spec_start() <= u64::MAX ==> r == self.spec_start(),
            self.wf() ==> r == self.spec_start() && r + self.spec_possibilities() <= pow2(
                self.total_bits as nat,
            ),
    {
        let rem = self.remaining_bits();
        proof {
            lemma_shl_wraps(self.prefix, rem as u64);
            if self.spec_start() <= u64::MAX {
                lemma_small_mod(self.spec_start(), 0x1_0000_0000_0000_0000);
            }
            if self.wf() {
                self.lemma_extent();
                lemma_small_mod(self.spec_start(), 0x1_0000_0000_0000_0000);
            }
        }
        self.prefix << rem
    }

    pub fn end(&self) -> (r: u64)
        requires
            self.prefix_bits <= self.total_bits,
            self.total_bits - self.prefix_bits < 64,
            self.shifted_start() + self.spec_possibilities() <= u64::MAX,
        ensures
            r == self.shifted_start() + self.spec_possibilities() - 1,
            self.spec_start() <= u64::MAX ==> r == self.spec_end(),
            self.wf() ==> r == self.spec_end() && self.spec_start() <= r < pow2(self.total_bits as nat),
    {
        proof {
            lemma_pow2_pos(self.spec_remaining());
            if self.wf() {
                self.lemma_extent();
            }
        }
        self.start() + self.possibilities() - 1
    }

    pub fn can_expand(&self) -> (r: bool)
        requires
            self.prefix_bits <= self.total_bits,
        ensures
            r == (self.spec_remaining() >= 3),
    {
        self.remaining_bits() >= 3
    }

    /// The region's values fit below `2^total_bits`, hence in a `u64`.
    pub proof fn lemma_extent(self)
        requires
            self.wf(),
        ensures
            self.spec_possibilities() >= 1,
            self.spec_end() < pow2(self.total_bits as nat),
            pow2(self.total_bits as nat) <= pow2(63),
            pow2(63) < u64::MAX,
    {
        let rem = self.spec_remaining();
        lemma_pow2_pos(rem);
        lemma_pow2_adds(self.prefix_bits as nat, rem);
        lemma_mul_inequality((self.prefix + 1) as int, pow2(self.prefix_bits as nat) as int,
            pow2(rem) as int);
        lemma_mul_is_distributive_add(pow2(rem) as int, self.prefix as int, 1);
        if self.total_bits < 63 {
            lemma_pow2_strictly_increases(self.total_bits as nat, 63);
        }
        lemma2_to64_rest();
    }
}


/// A left shift keeps the low 64 bits of `x * 2^n`.
proof fn lemma_shl_wraps(x: u64, n: u64)
    requires
        n < 64,
    ensures
        (x << n) as int == (x as int * pow2(n as nat)) % 0x1_0000_0000_0000_0000,
    decreases n,
{
    let m: int = 0x1_0000_0000_0000_0000;
    if n == 0 {
        assert(x << 0u64 == x) by (bit_vector);
        lemma2_to64();
        lemma_small_mod(x as nat, m as nat);
    } else {
        let k = (n - 1) as u64;
        lemma_shl_wraps(x, k);
        let y = x << k;
        assert(x << n == y << 1u64) by (bit_vector)
            requires
                n == k + 1,
                n < 64,
                y == x << k,
        ;
        assert(y < 0x8000_0000_0000_0000u64 ==> (y << 1u64) as int == y as int * 2) by (bit_vector);
        assert(y >= 0x8000_0000_0000_0000u64 ==> (y << 1u64) as int + 0x1_0000_0000_0000_0000
            == y as int * 2) by (bit_vector);
        let p = pow2(k as nat) as int;
        assert((x << n) as int == (2 * (y as int)) % m) by {
            if y < 0x8000_0000_0000_0000u64 {
                lemma_small_mod((2 * (y as int)) as nat, m as nat);
            } else {
                lemma_small_mod((2 * (y as int) - m) as nat, m as nat);
                vstd::arithmetic::div_mod::lemma_mod_sub_multiples_vanish(2 * (y as int), m);
            }
        }
        lemma_mul_mod_noop_right(2, x as int * p, m);
        lemma_pow2_unfold(n as nat);
        lemma_mul_is_associative(2, x as int, p);
        lemma_mul_is_associative(x as int, 2, p);
        assert(2 * (x as int) == (x as int) * 2);
    }
}

/// The three bits of a 3-bit figure, most significant first.
pub open spec fn spec_bits(v: u8) -> Seq<u8> {
    seq![(v >> 2) & 1, (v >> 1) & 1, v & 1]
}

/// Hamming weight of a 3-bit figure.
pub open spec fn spec_weight(v: u8) -> int {
    ((v >> 2) & 1) + ((v >> 1) & 1) + (v & 1)
}

/// `s` is the state that `parent` expands to for the figure `v`.
pub open spec fn expansion_state(parent: PossibilityRegion, v: u8, s: X1331State) -> bool {
    &&& s.value == v
    &&& s.bits@ == spec_bits(v)
    &&& s.weight == spec_weight(v)
    &&& s.region == parent.spec_child(v)
}

/// `states` lists the eight children of `parent`, figure `i` at index `i`.
pub open spec fn is_expansion(parent: PossibilityRegion, states: Seq<X1331State>) -> bool {
    &&& states.len() == 8
    &&& forall|i: int| #![trigger states[i]] 0 <= i < 8 ==> expansion_state(parent, i as u8, states[i])
}

/// The states of `s` whose weight is `w`, in the order they have in `s`.
pub open spec fn weight_class(s: Seq<X1331State>, w: u8) -> Seq<X1331State>
    decreases s.len(),
{
    if s.len() == 0 {
        s
    } else {
        let rest = weight_class(s.drop_last(), w);
        if s.last().weight == w {
            rest.push(s.last())
        } else {
            rest
        }
    }
}

impl PossibilityRegion {
    /// Splits the region on its next three bits into eight child regions,
    /// one per 3-bit figure, each labelled with its bits and Hamming weight.
    pub fn expand_1331(&self) -> (states: Vec<X1331State>)
        requires
            self.prefix_bits <= self.total_bits,
            self.spec_remaining() >= 3,
        ensures
            is_expansion(*self, states@),
            self.wf() ==> forall|i: int| 0 <= i < 8 ==> (#[trigger] states@[i]).region.wf(),
    {
        let mut states: Vec<X1331State> = Vec::new();
        let mut value: u8 = 0;
        proof {
            lemma_pow2_adds(self.prefix_bits as nat, 3);
            lemma2_to64();
            lemma2_to64_rest();
            if self.wf() && self.prefix_bits < 60 {
                lemma_pow2_strictly_increases(self.prefix_bits as nat, 60);
            }
        }
        while value < 8
            invariant
                value <= 8,
                states@.len() == value,
                self.prefix_bits <= self.total_bits,
                self.spec_remaining() >= 3,
                self.wf() ==> self.prefix < 0x1000_0000_0000_0000,
                pow2((self.prefix_bits + 3) as nat) == pow2(self.prefix_bits as nat) * 8,
                forall|i: int| #![trigger states@[i]] 0 <= i < value ==> expansion_state(*self, i as u8, states@[i]),
                self.wf() ==> forall|i: int| 0 <= i < value ==> (#[trigger] states@[i]).region.wf(),
            decreases 8 - value,
        {
            let b0 = (value >> 2) & 1;
            let b1 = (value >> 1) & 1;
            let b2 = value & 1;
            assert(((value >> 2) & 1) <= 1 && ((value >> 1) & 1) <= 1 && (value & 1) <= 1)
                by (bit_vector);
            let weight = b0 + b1 + b2;
            let p = self.prefix;
            let v = value as u64;
            assert((p << 3) | v == ((p * 8 + v) as u64)) by (bit_vector)
                requires
                    v < 8u64,
            ;
            let new_prefix = (self.prefix << 3) | value as u64;
            let region = PossibilityRegion {
                prefix: new_prefix,
                prefix_bits: self.prefix_bits + 3,
                total_bits: self.total_bits,
            };
            assert(region == self.spec_child(value));
            assert(self.wf() ==> region.wf()) by {
                if self.wf() {
                    assert((p << 3) | v == p * 8 + v) by (bit_vector)
                        requires
                            p < 0x1000_0000_0000_0000u64,
                            v < 8u64,
                    ;
                    assert(new_prefix < pow2(self.prefix_bits as nat) * 8) by (nonlinear_arith)
                        requires
                            new_prefix == p * 8 + v,
                            v < 8,
                            p < pow2(self.prefix_bits as nat),
                    ;
                }
            }
            let state = X1331State { value, bits: [b0, b1, b2], weight, region };
            assert(state.bits@ =~= spec_bits(value));
            states.push(state);
            value = value + 1;
        }
        states
    }
}

/// One of the eight children of a 1-3-3-1 expansion.
#[derive(Debug, Clone, Copy)]
pub struct X1331State {
    pub value: u8,
    pub bits: [u8; 3],
    pub weight: u8,
    pub region: PossibilityRegion,
}

/// A region together with its eight children.
pub struct X1331Cell {
    pub parent: PossibilityRegion,
    pub states: Vec<X1331State>,
}

impl X1331Cell {
    pub fn from_region(parent: PossibilityRegion) -> (cell: Self)
        requires
            parent.prefix_bits <= parent.total_bits,
            parent.spec_remaining() >= 3,
        ensures
            cell.parent == parent,
            is_expansion(parent, cell.states@),
    {
        let states = parent.expand_1331();
        Self { parent, states }
    }

    /// The states of the cell grouped by Hamming weight 0, 1, 2 and 3.
    pub fn groups(&self) -> (g: [Vec<X1331State>; 4])
        ensures
            g[0]@ == weight_class(self.states@, 0),
            g[1]@ == weight_class(self.states@, 1),
            g[2]@ == weight_class(self.states@, 2),
            g[3]@ == weight_class(self.states@, 3),
    {
        [
            Self::select_weight(&self.states, 0),
            Self::select_weight(&self.states, 1),
            Self::select_weight(&self.states, 2),
            Self::select_weight(&self.states, 3),
        ]
    }

    fn select_weight(states: &Vec<X1331State>, w: u8) -> (r: Vec<X1331State>)
        ensures
            r@ == weight_class(states@, w),
    {
        let mut r: Vec<X1331State> = Vec::new();
        let mut i: usize = 0;
        while i < states.len()
            invariant
                i <= states@.len(),
                r@ == weight_class(states@.take(i as int), w),
            decreases states@.len() - i,
        {
            assert(states@.take(i + 1).drop_last() =~= states@.take(i as int));
            if states[i].weight == w {
                r.push(states[i]);
            }
            i = i + 1;
        }
        assert(states@.take(states@.len() as int) =~= states@);
        r
    }
}


/// Expansion law: the eight children of a region tile it exactly. Child `v`
/// is an eighth of the parent, starts `v` child-widths after the parent's
/// start, and a value lies in child `v` exactly when it lies in the parent
/// and its offset from the parent's start, in child widths, is `v`.
pub proof fn lemma_children_tile_parent(parent: PossibilityRegion, v: u8, x: int)
    requires
        parent.wf(),
        parent.spec_remaining() >= 3,
        v < 8,
    ensures
        parent.spec_child(v).wf(),
        parent.spec_child(v).spec_possibilities() * 8 == parent.spec_possibilities(),
        parent.spec_child(v).spec_start() == parent.spec_start() + v * parent.spec_child(v).spec_possibilities(),
        parent.spec_child(v).contains(x) <==> (parent.contains(x) && (x - parent.spec_start())
            / (parent.spec_child(v).spec_possibilities() as int) == v),
{
    let c = parent.spec_child(v);
    let cp = c.spec_possibilities();
    let rem = parent.spec_remaining();
    lemma2_to64();
    lemma_pow2_adds((rem - 3) as nat, 3);
    lemma_pow2_adds(parent.prefix_bits as nat, 3);
    lemma_pow2_pos((rem - 3) as nat);
    lemma_pow2_strictly_increases(parent.prefix_bits as nat, 61);
    lemma2_to64_rest();
    assert(c.prefix == parent.prefix * 8 + v) by {
        if parent.prefix_bits < 60 {
            lemma_pow2_strictly_increases(parent.prefix_bits as nat, 60);
        }
        assert(parent.prefix < 0x1000_0000_0000_0000);
    }
    assert(c.prefix < pow2(parent.prefix_bits as nat) * 8) by (nonlinear_arith)
        requires
            c.prefix == parent.prefix * 8 + v,
            v < 8,
            parent.prefix < pow2(parent.prefix_bits as nat),
    ;
    assert(c.spec_remaining() == rem - 3);
    assert(c.spec_start() == parent.spec_start() + v * cp) by (nonlinear_arith)
        requires
            c.spec_start() == c.prefix * cp,
            parent.spec_start() == parent.prefix * (cp * 8),
            c.prefix == parent.prefix * 8 + v,
    ;
    let s = parent.spec_start() as int;
    assert(c.contains(x) <==> (parent.contains(x) && (x - s) / (cp as int) == v)) by (nonlinear_arith)
        requires
            cp > 0,
            v < 8,
            c.spec_start() == s + v * cp,
            c.spec_end() == s + v * cp + cp - 1,
            parent.spec_end() == s + cp * 8 - 1,
            c.contains(x) <==> (c.spec_start() <= x <= c.spec_end()),
            parent.contains(x) <==> (s <= x <= parent.spec_end()),
    ;
}

/// Binomial law of a cell: among the eight children of any region, exactly
/// 1, 3, 3 and 1 have Hamming weight 0, 1, 2 and 3, and every member of a
/// weight class has that weight.
pub proof fn lemma_weight_classes_are_binomial(parent: PossibilityRegion, states: Seq<X1331State>)
    requires
        is_expansion(parent, states),
    ensures
        weight_class(states, 0).len() == 1,
        weight_class(states, 1).len() == 3,
        weight_class(states, 2).len() == 3,
        weight_class(states, 3).len() == 1,
        forall|w: u8, i: int| 0 <= i < weight_class(states, w).len()
            ==> (#[trigger] weight_class(states, w)[i]).weight == w,
{
    assert(spec_weight(0) == 0 && spec_weight(1) == 1 && spec_weight(2) == 1 && spec_weight(3) == 2
        && spec_weight(4) == 1 && spec_weight(5) == 2 && spec_weight(6) == 2 && spec_weight(7) == 3)
        by (bit_vector);
    assert(expansion_state(parent, 0, states[0]));
    assert(expansion_state(parent, 1, states[1]));
    assert(expansion_state(parent, 2, states[2]));
    assert(expansion_state(parent, 3, states[3]));
    assert(expansion_state(parent, 4, states[4]));
    assert(expansion_state(parent, 5, states[5]));
    assert(expansion_state(parent, 6, states[6]));
    assert(expansion_state(parent, 7, states[7]));
    reveal_with_fuel(weight_class, 9);
    assert forall|w: u8, i: int| 0 <= i < weight_class(states, w).len()
        implies (#[trigger] weight_class(states, w)[i]).weight == w by {
        lemma_weight_class_members(states, w, i);
    }
}

proof fn lemma_weight_class_members(s: Seq<X1331State>, w: u8, i: int)
    requires
        0 <= i < weight_class(s, w).len(),
    ensures
        weight_class(s, w)[i].weight == w,
    decreases s.len(),
{
    if s.len() > 0 {
        let rest = weight_class(s.drop_last(), w);
        if i < rest.len() {
            lemma_weight_class_members(s.drop_last(), w, i);
        }
    }
}

} // verus!
