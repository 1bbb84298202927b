//! Calibrated noise for differential privacy.
//!
//! The mechanism adds one independent zero-mean Gaussian sample per weight
//! coordinate, with standard deviation `sensitivity / epsilon`. Sampling a
//! Gaussian is floating-point work and happens outside the library, at the
//! scale `noise_scale` prescribes; adding the samples to the weights is
//! exact fixed-point arithmetic and is done here.

use vstd::prelude::*;
use crate::errors::{ConfigError, NoiseError};

verus! {

/// The deployment's differential-privacy parameters, in fixed-point
/// micro-units: a sensitivity bound for one release of a weight vector and
/// the privacy budget it is charged against.
#[derive(Clone, Copy, Debug)]
pub struct DPMechanism {
    pub epsilon: u64,
    pub sensitivity: u64,
}

impl DPMechanism {
    /// Builds the mechanism. A zero privacy budget would put the noise
    /// scale at a division by zero, and is a configuration error.
    pub fn new(epsilon: u64, sensitivity: u64) -> (r: Result<DPMechanism, ConfigError>)
        ensures
            r is Ok <==> epsilon > 0,
            r matches Ok(m) ==> m.epsilon == epsilon && m.sensitivity == sensitivity,
            r matches Err(e) ==> e == ConfigError::InvalidEpsilon,
    {
        if epsilon == 0 {
            Err(ConfigError::InvalidEpsilon)
        } else {
            Ok(DPMechanism { epsilon, sensitivity })
        }
    }

    /// The standard deviation the caller must sample the noise with, in
    /// fixed-point micro-units: `sensitivity / epsilon`.
    pub fn noise_scale(&self) -> (r: Result<u64, ConfigError>)
        ensures
            r is Ok <==> (self.epsilon > 0 && (self.sensitivity as int) * 1000000 / (
            self.epsilon as int) <= u64::MAX),
            r matches Ok(v) ==> v == (self.sensitivity as int) * 1000000 / (self.epsilon as int),
            r matches Err(e) ==> (e == ConfigError::InvalidEpsilon <==> self.epsilon == 0) && (e
                == ConfigError::ScaleOverflow <==> (self.epsilon > 0 && (self.sensitivity as int)
                * 1000000 / (self.epsilon as int) > u64::MAX)),
    {
        if self.epsilon == 0 {
            return Err(ConfigError::InvalidEpsilon);
        }
        let q: u128 = (self.sensitivity as u128) * 1000000u128 / (self.epsilon as u128);
        if q > u64::MAX as u128 {
            Err(ConfigError::ScaleOverflow)
        } else {
            Ok(q as u64)
        }
    }

    /// Adds the caller's noise samples to the weights, coordinate by
    /// coordinate, exactly. Fails if the noise does not have one sample per
    /// coordinate, or if a noised coordinate leaves the fixed-point range.
    pub fn add_noise(&self, weights: &Vec<i64>, noise: &Vec<i64>) -> (r: Result<
        Vec<i64>,
        NoiseError,
    >)
        ensures
            r is Ok <==> (noise@.len() == weights@.len() && forall|j: int|
                0 <= j < weights@.len() ==> i64::MIN <= (#[trigger] weights@[j]) + noise@[j]
                    <= i64::MAX),
            r matches Ok(v) ==> v@.len() == weights@.len() && forall|j: int|
                0 <= j < weights@.len() ==> (#[trigger] v@[j]) == weights@[j] + noise@[j],
            r matches Err(e) ==> {
                &&& (e == NoiseError::LengthMismatch <==> noise@.len() != weights@.len())
                &&& (e == NoiseError::Overflow ==> exists|j: int|
                    0 <= j < weights@.len() && !(i64::MIN <= (#[trigger] weights@[j]) + noise@[j]
                        <= i64::MAX))
            },
    {
        if noise.len() != weights.len() {
            return Err(NoiseError::LengthMismatch);
        }
        let mut out: Vec<i64> = Vec::new();
        let mut j: usize = 0;
        while j < weights.len()
            invariant
                j <= weights@.len(),
                noise@.len() == weights@.len(),
                out@.len() == j,
                forall|q: int| 0 <= q < j ==> (#[trigger] out@[q]) == weights@[q] + noise@[q],
                forall|q: int|
                    0 <= q < j ==> i64::MIN <= (#[trigger] weights@[q]) + noise@[q] <= i64::MAX,
            decreases weights@.len() - j,
        {
            let w = weights[j];
            let n = noise[j];
            if n > 0 && w > i64::MAX - n {
                proof {
                    assert(!(i64::MIN <= weights@[j as int] + noise@[j as int] <= i64::MAX));
                }
                return Err(NoiseError::Overflow);
            }
            if n < 0 && w < i64::MIN - n {
                proof {
                    assert(!(i64::MIN <= weights@[j as int] + noise@[j as int] <= i64::MAX));
                }
                return Err(NoiseError::Overflow);
            }
            out.push(w + n);
            j = j + 1;
        }
        Ok(out)
    }
}

} // verus!
