//! Simulation settings.

use vstd::prelude::*;

verus! {

/// Settings of an odds simulation.
#[derive(Clone, Debug)]
pub struct SimConfig {
    /// Number of Monte Carlo iterations.
    pub iterations: u64,
    /// If remaining combinations <= this, use exact enumeration.
    pub exact_threshold: u64,
    /// How many threads to use (0 = auto-detect).
    pub threads: usize,
    /// How often (ms) to emit partial results to the front end.
    pub update_interval_ms: u64,
    /// Optional fixed RNG seed for reproducibility.
    pub rng_seed: Option<u64>,
}

impl Default for SimConfig {
    fn default() -> (c: SimConfig)
        ensures
            c.iterations == 500_000,
            c.exact_threshold == 50_000,
            c.threads == 0,
            c.update_interval_ms == 100,
            c.rng_seed is None,
    {
        SimConfig {
            iterations: 500_000,
            exact_threshold: 50_000,
            threads: 0,
            update_interval_ms: 100,
            rng_seed: None,
        }
    }
}

impl SimConfig {
    /// Number of threads to run: the configured count, or when that is 0 the
    /// parallelism the machine reports (`detected`), or 4 when it reports none.
    pub fn effective_threads(&self, detected: Option<usize>) -> (n: usize)
        ensures
            self.threads != 0 ==> n == self.threads,
            self.threads == 0 ==> n == match detected {
                Some(d) => d,
                None => 4,
            },
    {
        if self.threads == 0 {
            match detected {
                Some(d) => d,
                None => 4,
            }
        } else {
            self.threads
        }
    }
}

} // verus!
