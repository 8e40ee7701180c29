//! Agents that score the eight states of a cell; scores are exact fractions.
use vstd::prelude::*;
use crate::cell::X1331Cell;
use crate::cell::X1331State;

verus! {

/// One agent's score for one state, under one method.
#[derive(Debug, Clone, Copy)]
pub struct Proposal {
    pub agent: &'static str,
    pub method: &'static str,
    pub parameters: &'static str,
    pub state_value: u8,
    /// The score is `score_numerator / score_denominator`.
    pub score_numerator: u64,
    pub score_denominator: u64,
}

impl Proposal {
    /// `agent::method::parameters`.
    pub fn method_key(&self) -> (r: String)
        ensures
            r@ == self.agent@ + "::"@ + self.method@ + "::"@ + self.parameters@,
    {
        let mut s = String::from_str(self.agent);
        s.append("::");
        s.append(self.method);
        s.append("::");
        s.append(self.parameters);
        s
    }
}

/// Something that scores the states of a cell.
pub trait Agent {
    fn name(&self) -> &'static str;

    fn propose(&self, cell: &X1331Cell) -> Vec<Proposal>;
}

/// The baseline: every state scores 1/8. It contains no information by design.
pub struct UniformAgent;

/// The uniform proposal for `s`.
pub open spec fn uniform_proposal(p: Proposal, s: X1331State) -> bool {
    &&& p.agent@ == "control-agent"@
    &&& p.method@ == "uniform"@
    &&& p.parameters@ == "none"@
    &&& p.state_value == s.value
    &&& p.score_numerator == 1
    &&& p.score_denominator == 8
}

impl Agent for UniformAgent {
    fn name(&self) -> (r: &'static str)
        ensures
            r@ == "control-agent"@,
    {
        "control-agent"
    }

    fn propose(&self, cell: &X1331Cell) -> (r: Vec<Proposal>)
        ensures
            r@.len() == cell.states@.len(),
            forall|i: int| 0 <= i < r@.len() ==> uniform_proposal(#[trigger] r@[i], cell.states@[i]),
    {
        let mut r: Vec<Proposal> = Vec::new();
        let mut i: usize = 0;
        while i < cell.states.len()
            invariant
                i <= cell.states@.len(),
                r@.len() == i,
                forall|j: int| 0 <= j < i ==> uniform_proposal(#[trigger] r@[j], cell.states@[j]),
            decreases cell.states@.len() - i,
        {
            r.push(Proposal {
                agent: self.name(),
                method: "uniform",
                parameters: "none",
                state_value: cell.states[i].value,
                score_numerator: 1,
                score_denominator: 8,
            });
            i = i + 1;
        }
        r
    }
}

/// An agent that runs two binary methods over the same cell.
pub struct BinaryAgent;

/// Twice the distance of a weight from the centre 1.5: `|2w - 3|`.
pub open spec fn twice_balance_distance(weight: u8) -> nat {
    if 2 * weight >= 3 {
        (2 * weight - 3) as nat
    } else {
        (3 - 2 * weight) as nat
    }
}

/// Number of adjacent bit pairs that differ in a 3-bit figure.
pub open spec fn transitions_spec(bits: Seq<u8>) -> nat {
    (if bits[0] != bits[1] {
        1nat
    } else {
        0nat
    }) + (if bits[1] != bits[2] {
        1nat
    } else {
        0nat
    })
}

/// Hamming-balance proposal: score `1 / (1 + |w - 1.5|)`, that is `2 / (2 + |2w - 3|)`.
pub open spec fn balance_proposal(p: Proposal, s: X1331State) -> bool {
    &&& p.agent@ == "binary-agent"@
    &&& p.method@ == "hamming-balance"@
    &&& p.parameters@ == "center=1.5"@
    &&& p.state_value == s.value
    &&& p.score_numerator == 2
    &&& p.score_denominator == 2 + twice_balance_distance(s.weight)
}

/// Bit-transition proposal: score `(transitions + 1) / 3`.
pub open spec fn transition_proposal(p: Proposal, s: X1331State) -> bool {
    &&& p.agent@ == "binary-agent"@
    &&& p.method@ == "bit-transitions"@
    &&& p.parameters@ == "window=3"@
    &&& p.state_value == s.value
    &&& p.score_numerator == transitions_spec(s.bits@) + 1
    &&& p.score_denominator == 3
}

/// Twice the distance of a weight from 1.5.
pub fn balance_distance2(weight: u8) -> (r: u64)
    ensures
        r == twice_balance_distance(weight),
{
    let w = weight as u64;
    if 2 * w >= 3 {
        2 * w - 3
    } else {
        3 - 2 * w
    }
}

/// Adjacent differing bit pairs of a 3-bit figure (0, 1 or 2).
pub fn bit_transitions(bits: [u8; 3]) -> (r: u64)
    ensures
        r == transitions_spec(bits@),
        r <= 2,
{
    let a: u64 = if bits[0] != bits[1] { 1 } else { 0 };
    let b: u64 = if bits[1] != bits[2] { 1 } else { 0 };
    a + b
}

impl Agent for BinaryAgent {
    fn name(&self) -> (r: &'static str)
        ensures
            r@ == "binary-agent"@,
    {
        "binary-agent"
    }

    /// First one hamming-balance proposal per state, then one bit-transition
    /// proposal per state, both in the order of the cell's states.
    fn propose(&self, cell: &X1331Cell) -> (r: Vec<Proposal>)
        ensures
            r@.len() == 2 * cell.states@.len(),
            forall|i: int| 0 <= i < cell.states@.len() ==> balance_proposal(
                #[trigger] r@[i],
                cell.states@[i],
            ),
            forall|i: int| 0 <= i < cell.states@.len() ==> transition_proposal(
                #[trigger] r@[cell.states@.len() + i],
                cell.states@[i],
            ),
    {
        let n = cell.states.len();
        let mut r: Vec<Proposal> = Vec::new();
        let mut i: usize = 0;
        while i < n
            invariant
                n == cell.states@.len(),
                i <= n,
                r@.len() == i,
                forall|j: int| 0 <= j < i ==> balance_proposal(#[trigger] r@[j], cell.states@[j]),
            decreases n - i,
        {
            let state = cell.states[i];
            r.push(Proposal {
                agent: self.name(),
                method: "hamming-balance",
                parameters: "center=1.5",
                state_value: state.value,
                score_numerator: 2,
                score_denominator: 2 + balance_distance2(state.weight),
            });
            i = i + 1;
        }
        let mut k: usize = 0;
        while k < n
            invariant
                n == cell.states@.len(),
                k <= n,
                r@.len() == n + k,
                forall|j: int| 0 <= j < n ==> balance_proposal(#[trigger] r@[j], cell.states@[j]),
                forall|j: int| 0 <= j < k ==> transition_proposal(#[trigger] r@[n + j], cell.states@[j]),
            decreases n - k,
        {
            let state = cell.states[k];
            r.push(Proposal {
                agent: self.name(),
                method: "bit-transitions",
                parameters: "window=3",
                state_value: state.value,
                score_numerator: bit_transitions(state.bits) + 1,
                score_denominator: 3,
            });
            k = k + 1;
        }
        r
    }
}

} // verus!
