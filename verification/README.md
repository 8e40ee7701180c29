# x1331

X1331 reads a 32-bit Bitcoin nonce as a path of 3-bit figures (ten
figures, then the last two bits) and studies, on live Stratum jobs and on
historical blocks, whether those figures carry any signal.

`src/` is the library, verified with Verus: every function carries a
contract, and the laws of the library stand there as proof functions
(names starting with `lemma_`). `app/` holds the command-line programs
around it (sockets, files, JSON and CSV, floating-point statistics).

## Library modules

- `nonce`, `bitfacts`: the figure path of a nonce, forced figures, job nonces.
- `cell`: possibility regions and their 1-3-3-1 expansion.
- `hashing`, `pow`, `bignum`: SHA-256d, 256-bit targets, share targets.
- `stratum`, `session`, `batch`, `score`: Stratum headers, the live miner's
  session state machine, batches of candidates and their tallies.
- `region_miner`, `pool`: the region-scanning miner's session, chunks and
  counters; the pool-learning run's session.
- `p2p`: peer-to-peer framing, `headers` payloads, chain checks, holdout rows.
- `dataset`, `figures`, `analysis`: checks and tallies over the block files.
- `memory`, `context`, `regime`, `deep`, `agent`, `rng`: count tables,
  contexts, synthetic regimes, deep navigation, agents, SplitMix64.

## Programs

`app/main.rs` dispatches on its first argument: `miner`, `region-miner`,
`p2p-history`, `p2p-holdout`, `dataset`, `analyze`, `replicate`, `recover`,
`pool-learning`, `stratum-probe`, `deep-mem-train`, `fingerprint`,
`counterfactual`, `race`, `regime-map`, `deep-scaling`, `ultradeep-scaling`.

`app/observers.rs` keeps the floating-point learners (method trust, the
observer, the two softmax predictors, the synthetic context) beside them.
