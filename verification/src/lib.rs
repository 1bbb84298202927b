//! Secure aggregation for privacy-preserving collaborative training.
//!
//! A set of clients each hold a local model update. Before anything leaves a
//! client, the update is protected in three layers: calibrated noise is added
//! to every coordinate, the noised vector is split into threshold secret
//! shares, and each share is encrypted under a pre-shared symmetric key. The
//! server buffers encrypted contributions, and once enough clients have
//! reported it reconstructs each contribution, combines them into a
//! sample-weighted average, installs the result as the new global model and
//! advances the model version by one.
//!
//! Weights travel through the protocol as fixed-point integers (micro-units)
//! embedded in the prime field used by the sharing polynomial, so every step
//! of the arithmetic is exact.

pub mod field;
pub mod errors;
pub mod codec;
pub mod shamir;
pub mod cipher;
pub mod dp;
pub mod config;
pub mod server;
pub mod client;
