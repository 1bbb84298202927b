//! The deployment's fixed configuration.
//!
//! All rates and budgets are fixed-point integers in micro-units (one
//! million micro-units to the unit), so the protocol arithmetic stays
//! exact. The values are fixed at process start and never reloaded.

use vstd::prelude::*;

verus! {

/// How many shares each client update is split into.
pub const DEFAULT_NUM_SHARES: usize = 3;

/// How many shares reconstruct an update.
pub const DEFAULT_THRESHOLD: usize = 2;

/// Client-side training and protection parameters, in micro-units where the
/// quantity is a rate or a budget.
pub struct Config {
    /// Optimizer step size, micro-units.
    pub learning_rate: u64,
    /// Samples per training batch.
    pub batch_size: usize,
    /// Noise level knob for the privacy mechanism, micro-units.
    pub noise_level: u64,
    /// Training rounds one client runs.
    pub num_rounds: usize,
    /// Sensitivity of one release of a weight vector, micro-units.
    pub sensitivity: u64,
    /// Privacy budget per release, micro-units.
    pub epsilon: u64,
}

impl Config {
    /// The stock deployment configuration.
    pub fn new() -> (r: Config)
        ensures
            r.learning_rate == 1000,
            r.batch_size == 64,
            r.noise_level == 100000,
            r.num_rounds == 3,
            r.sensitivity == 1000000,
            r.epsilon == 500000,
    {
        Config {
            learning_rate: 1000,  // 0.001
            batch_size: 64,
            noise_level: 100000,  // 0.1
            num_rounds: 3,
            sensitivity: 1000000,  // 1.0
            epsilon: 500000,  // 0.5
        }
    }
}

} // verus!
