//! Verified core of the X1331 nonce-space explorer: possibility regions,
//! 1-3-3-1 cells, double-SHA256 evaluation, proof-of-work targets,
//! Stratum header assembly and the deterministic generators used by the
//! experiments.
use vstd::prelude::*;

pub mod agent;
pub mod analysis;
pub mod batch;
pub mod bignum;
pub mod bitfacts;
pub mod cell;
pub mod context;
pub mod dataset;
pub mod deep;
pub mod memory;
pub mod hashing;
pub mod rng;
pub mod nonce;
pub mod p2p;
pub mod figures;
pub mod pool;
pub mod pow;
pub mod regime;
pub mod region_miner;
pub mod score;
pub mod session;
pub mod stratum;

verus! {
}
