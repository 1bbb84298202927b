//! The client round controller.
//!
//! One participant's round runs fetch, train, protect, submit, strictly in
//! that order; rounds of one client never overlap. The controller is a
//! state machine from phase and event to next phase: the host performs the
//! fetch, the training and the submission (they are I/O and float work) and
//! feeds the outcome back in. A version conflict re-enters the fetching
//! phase and the stale update is discarded, never resubmitted; any other
//! submission failure ends the round visibly.
//!
//! Protecting an update — noise, sharing, encryption — is pure protocol
//! work and stands here whole, as `protect_update`.

use vstd::prelude::*;
use crate::cipher::{ShareCipher, fernet_plaintext, encrypt_share};
use crate::codec::{share_bytes, encode_weight, encode_weight_spec};
use crate::dp::DPMechanism;
use crate::shamir::{secret_share_weights, is_sharing_of, rows_view};
use crate::field::{FIELD_P, FIELD_HALF, MAX_SHARES};
use crate::errors::{ProtectError, NoiseError};

verus! {

/// Where one client round stands.
#[derive(PartialEq, Eq, Structural, Clone, Copy, Debug)]
pub enum RoundPhase {
    /// No round running.
    Idle,
    /// Requesting the current global model from the server.
    Fetching,
    /// The local trainer is producing an update against `model_version`.
    Training { model_version: u64 },
    /// Noising, sharing and encrypting the update.
    Protecting { model_version: u64 },
    /// The submission is on its way to the server.
    Submitting { model_version: u64 },
    /// The server accepted the submission; the round is complete.
    Accepted,
    /// The round failed; the failure is surfaced, nothing retries silently.
    Failed,
}

/// What the world answered the controller's last phase with.
#[derive(PartialEq, Eq, Structural, Clone, Copy, Debug)]
pub enum RoundEvent {
    /// A new round begins.
    Start,
    /// The fetch returned the server's current model version.
    FetchOk { model_version: u64 },
    /// The fetch failed; the round is abandoned, to be retried later.
    FetchFailed,
    /// The trainer produced an update.
    TrainDone,
    /// The update was noised, shared and encrypted.
    ProtectDone,
    /// Protection failed: a configuration or range error.
    ProtectFailed,
    /// The server buffered or aggregated the submission.
    SubmitAccepted,
    /// The server reported the submission's model version stale.
    SubmitConflict,
    /// The submission failed in any other way.
    SubmitFailed,
}

/// The controller's transition table. An event that its phase does not
/// expect leaves the phase unchanged.
pub open spec fn round_step_spec(phase: RoundPhase, event: RoundEvent) -> RoundPhase {
    match (phase, event) {
        (RoundPhase::Idle, RoundEvent::Start) => RoundPhase::Fetching,
        (RoundPhase::Fetching, RoundEvent::FetchOk { model_version }) => RoundPhase::Training {
            model_version,
        },
        (RoundPhase::Fetching, RoundEvent::FetchFailed) => RoundPhase::Idle,
        (RoundPhase::Training { model_version }, RoundEvent::TrainDone) => RoundPhase::Protecting {
            model_version,
        },
        (RoundPhase::Protecting { model_version }, RoundEvent::ProtectDone) => RoundPhase::Submitting {
            model_version,
        },
        (RoundPhase::Protecting { .. }, RoundEvent::ProtectFailed) => RoundPhase::Failed,
        (RoundPhase::Submitting { .. }, RoundEvent::SubmitAccepted) => RoundPhase::Accepted,
        (RoundPhase::Submitting { .. }, RoundEvent::SubmitConflict) => RoundPhase::Fetching,
        (RoundPhase::Submitting { .. }, RoundEvent::SubmitFailed) => RoundPhase::Failed,
        _ => phase,
    }
}

/// Advances the controller by one event. A version conflict returns the
/// round to fetching — the stale update is discarded, not resubmitted —
/// and a fetch failure abandons the round; any other submission failure
/// ends it visibly.
pub fn round_step(phase: RoundPhase, event: RoundEvent) -> (r: RoundPhase)
    ensures
        r == round_step_spec(phase, event),
        phase is Submitting && event is SubmitConflict ==> r is Fetching,
        phase is Submitting && event is SubmitAccepted ==> r is Accepted,
        phase is Fetching && event is FetchFailed ==> r is Idle,
{
    match (phase, event) {
        (RoundPhase::Idle, RoundEvent::Start) => RoundPhase::Fetching,
        (RoundPhase::Fetching, RoundEvent::FetchOk { model_version }) => RoundPhase::Training {
            model_version,
        },
        (RoundPhase::Fetching, RoundEvent::FetchFailed) => RoundPhase::Idle,
        (RoundPhase::Training { model_version }, RoundEvent::TrainDone) => RoundPhase::Protecting {
            model_version,
        },
        (RoundPhase::Protecting { model_version }, RoundEvent::ProtectDone) => RoundPhase::Submitting {
            model_version,
        },
        (RoundPhase::Protecting { .. }, RoundEvent::ProtectFailed) => RoundPhase::Failed,
        (RoundPhase::Submitting { .. }, RoundEvent::SubmitAccepted) => RoundPhase::Accepted,
        (RoundPhase::Submitting { .. }, RoundEvent::SubmitConflict) => RoundPhase::Fetching,
        (RoundPhase::Submitting { .. }, RoundEvent::SubmitFailed) => RoundPhase::Failed,
        _ => phase,
    }
}

/// The noised weight vector, embedded in the sharing field.
pub open spec fn noised_encoding(weights: Seq<i64>, noise: Seq<i64>) -> Seq<u64> {
    Seq::new(weights.len(), |j: int| encode_weight_spec((weights[j] + noise[j]) as i64))
}

/// Protects one trained update for submission: adds the caller's noise
/// samples to the weights, embeds the noised vector in the sharing field,
/// splits it into `num_shares` threshold shares, and encrypts each share
/// under the deployment key. On success there is one token per
/// shareholder, and the tokens carry exactly some valid sharing of the
/// noised vector — nothing else ever leaves the client.
pub fn protect_update(
    cipher: &ShareCipher,
    dp: &DPMechanism,
    weights: &Vec<i64>,
    noise: &Vec<i64>,
    num_shares: usize,
    threshold: usize,
) -> (r: Result<Vec<String>, ProtectError>)
    ensures
        r is Ok <==> {
            &&& noise@.len() == weights@.len()
            &&& forall|j: int|
                0 <= j < weights@.len() ==> -(FIELD_HALF as int) <= (#[trigger] weights@[j])
                    + noise@[j] <= FIELD_HALF as int
            &&& 1 <= threshold <= num_shares <= MAX_SHARES
        },
        r matches Ok(tokens) ==> {
            &&& tokens@.len() == num_shares
            &&& exists|shares: Seq<Seq<u64>>|
                {
                    &&& #[trigger] is_sharing_of(
                        noised_encoding(weights@, noise@),
                        shares,
                        num_shares as int,
                        threshold as int,
                    )
                    &&& shares.len() == num_shares
                    &&& forall|k: int|
                        0 <= k < num_shares ==> fernet_plaintext(
                            cipher.key_view(),
                            (#[trigger] tokens@[k])@,
                        ) == Some(share_bytes(shares[k]))
                }
        },
        r matches Err(e) ==> {
            &&& (e == ProtectError::NoiseLengthMismatch ==> noise@.len() != weights@.len())
            &&& (e == ProtectError::NoiseOverflow || e == ProtectError::WeightOutOfRange
                ==> exists|j: int|
                0 <= j < weights@.len() && !(-(FIELD_HALF as int) <= (#[trigger] weights@[j])
                    + noise@[j] <= FIELD_HALF as int))
            &&& (e matches ProtectError::Sharing(se) ==> !(1 <= threshold <= num_shares
                <= MAX_SHARES))
        },
{
    let noised = match dp.add_noise(weights, noise) {
        Ok(v) => v,
        Err(NoiseError::LengthMismatch) => {
            return Err(ProtectError::NoiseLengthMismatch);
        },
        Err(NoiseError::Overflow) => {
            return Err(ProtectError::NoiseOverflow);
        },
    };
    let mut enc: Vec<u64> = Vec::new();
    let mut j: usize = 0;
    while j < noised.len()
        invariant
            j <= noised@.len(),
            noised@.len() == weights@.len(),
            noise@.len() == weights@.len(),
            forall|q: int| 0 <= q < weights@.len() ==> (#[trigger] noised@[q]) == weights@[q] + noise@[q],
            enc@.len() == j,
            forall|q: int|
                0 <= q < j ==> (#[trigger] enc@[q]) == encode_weight_spec(noised@[q]) && enc@[q]
                    < FIELD_P,
            forall|q: int|
                0 <= q < j ==> -(FIELD_HALF as int) <= (#[trigger] weights@[q]) + noise@[q]
                    <= FIELD_HALF as int,
        decreases noised@.len() - j,
    {
        match encode_weight(noised[j]) {
            Some(e) => {
                enc.push(e);
            },
            None => {
                proof {
                    assert(!(-(FIELD_HALF as int) <= weights@[j as int] + noise@[j as int]
                        <= FIELD_HALF as int));
                }
                return Err(ProtectError::WeightOutOfRange);
            },
        }
        j = j + 1;
    }
    let shares = match secret_share_weights(&enc, num_shares, threshold) {
        Ok(s) => s,
        Err(se) => {
            return Err(ProtectError::Sharing(se));
        },
    };
    proof {
        assert(enc@ =~= noised_encoding(weights@, noise@));
    }
    let mut tokens: Vec<String> = Vec::new();
    let mut k: usize = 0;
    while k < num_shares
        invariant
            k <= num_shares,
            shares@.len() == num_shares,
            forall|q: int|
                0 <= q < num_shares ==> (#[trigger] shares@[q])@.len() == enc@.len() && forall|
                    c: int,
                |
                    0 <= c < enc@.len() ==> (#[trigger] shares@[q]@[c]) < FIELD_P,
            tokens@.len() == k,
            forall|q: int|
                0 <= q < k ==> fernet_plaintext(cipher.key_view(), (#[trigger] tokens@[q])@)
                    == Some(share_bytes(shares@[q]@)),
        decreases num_shares - k,
    {
        let token = encrypt_share(cipher, &shares[k]);
        tokens.push(token);
        k = k + 1;
    }
    proof {
        let svs = rows_view(shares@);
        assert(is_sharing_of(
            noised_encoding(weights@, noise@),
            svs,
            num_shares as int,
            threshold as int,
        ));
        assert(forall|q: int|
            0 <= q < num_shares ==> fernet_plaintext(cipher.key_view(), (#[trigger] tokens@[q])@)
                == Some(share_bytes(svs[q])));
    }
    Ok(tokens)
}

} // verus!
