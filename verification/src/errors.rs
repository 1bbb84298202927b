//! Error taxonomy of the protocol.
//!
//! Configuration errors are fatal at startup; sharing and crypto errors are
//! fatal for the contribution they concern; aggregation errors are fatal for
//! the round and never partially applied.

use vstd::prelude::*;

verus! {

/// A deployment parameter is unusable. Fatal at startup.
#[derive(Clone, Copy, Debug, PartialEq, Eq, Structural)]
pub enum ConfigError {
    /// The privacy budget is zero: the noise scale would divide by zero.
    InvalidEpsilon,
    /// The noise scale does not fit the fixed-point range.
    ScaleOverflow,
    /// The shared symmetric key is not a valid cipher key.
    InvalidKey,
    /// The aggregation goal is zero or above the supported range.
    InvalidAggregationGoal,
    /// The reconstruction threshold is zero or above the share-index range.
    InvalidThreshold,
}

/// Secret sharing was asked for parameters it cannot serve.
#[derive(Clone, Copy, Debug, PartialEq, Eq, Structural)]
pub enum ShamirError {
    /// The threshold is zero, or exceeds the number of shares.
    InvalidParameters,
    /// More shares were requested than the shareholder-index range supports.
    TooManyShares,
    /// The share vectors handed to reconstruction differ in length.
    LengthMismatch,
    /// A shareholder index is zero or above the supported range.
    BadShareIndex,
    /// Two shares carry the same shareholder index.
    DuplicateShareIndex,
    /// A share value is not a field element.
    ShareValueOutOfField,
}

/// A share failed to pass the cipher or its byte framing.
#[derive(Clone, Copy, Debug, PartialEq, Eq, Structural)]
pub enum CryptoError {
    /// Authentication failed: the token was tampered with or the key differs.
    DecryptionFailed,
    /// The decrypted bytes are not a well-formed share.
    MalformedShare,
}

/// Adding noise to a weight vector failed.
#[derive(Clone, Copy, Debug, PartialEq, Eq, Structural)]
pub enum NoiseError {
    /// The noise vector does not have one sample per coordinate.
    LengthMismatch,
    /// A noised coordinate does not fit the fixed-point range.
    Overflow,
}

/// Protecting a client update for submission failed.
#[derive(Clone, Copy, Debug, PartialEq, Eq, Structural)]
pub enum ProtectError {
    /// The noise vector does not have one sample per coordinate.
    NoiseLengthMismatch,
    /// A noised coordinate does not fit the fixed-point range.
    NoiseOverflow,
    /// A noised coordinate is too large in magnitude to embed in the field.
    WeightOutOfRange,
    /// The sharing parameters are invalid.
    Sharing(ShamirError),
}

/// One aggregation cycle could not produce a new global model. The drained
/// contributions are consumed, but the model and its version are untouched.
#[derive(Clone, Copy, Debug, PartialEq, Eq, Structural)]
pub enum AggregationError {
    /// Every drained contribution was rejected.
    NoValidContribution,
    /// Valid contributions disagree on the weight-vector length.
    LengthMismatch,
    /// A contribution's sample count is zero or above the supported range.
    BadSampleCount,
    /// A reconstructed coordinate is outside the fixed-point weight range.
    WeightOutOfRange,
    /// More contributions arrived in one cycle than the averaging supports.
    TooManyContributions,
}

} // verus!
