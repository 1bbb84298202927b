//! The aggregation server's state machine.
//!
//! The server owns the global model, the model version counter and a buffer
//! of pending encrypted contributions. Submissions tagged with a stale model
//! version are turned away. Fresh submissions are buffered until the
//! aggregation goal is met; the goal-meeting submission drains the whole
//! buffer atomically, each drained contribution is decrypted and
//! reconstructed from its shares, the surviving contributions are combined
//! by a sample-weighted average, and the result is installed as the new
//! global model with the version advanced by exactly one. A contribution
//! that fails decryption or reconstruction is rejected and reported, and
//! never enters the average. The host is expected to serialize calls into
//! one state value (a lock around it); nothing here blocks or performs I/O.

use vstd::prelude::*;
use crate::cipher::{ShareCipher, fernet_plaintext, fernet_key_ok, decrypt_share};
use crate::codec::{decode_share_bytes, decode_weight_spec, decode_weight};
use crate::shamir::{combine, lagrange_zero, share_xs, share_ys, combine_input_ok};
use crate::field::{FIELD_P, FIELD_HALF, MAX_SHARES};
use crate::errors::{ConfigError, AggregationError};

verus! {

/// One client's contribution to a round: the encrypted shares of its noised
/// weight update (one token per shareholder), how many local samples the
/// update was trained on, the training loss in fixed-point micro-units, and
/// the model version the update was computed against.
pub struct WeightsUpdate {
    pub model_weights: Vec<String>,
    pub num_samples: usize,
    pub loss: i64,
    pub model_version: u64,
}

/// What the server answered a submission with.
pub enum AggregationOutcome {
    /// Below the goal: buffered, waiting for `needed` more contributions.
    Buffered { received: usize, needed: usize },
    /// The goal was met: the buffer was drained, a new global model
    /// installed, and the version advanced by one. `rejected` counts the
    /// drained contributions that failed decryption or reconstruction and
    /// were excluded from the average.
    Aggregated { new_version: u64, rejected: usize },
    /// The submission's version is older than the server's; nothing
    /// changed, the client must re-fetch.
    VersionConflict { current_version: u64 },
    /// The goal was met but no new model could be built. The drained batch
    /// is consumed; the model and version are untouched.
    AggregationFailed { reason: AggregationError },
}

/// The share a token carries under `key`: its authenticated plaintext read
/// back through the share framing, or `None` at either failure.
pub open spec fn token_share(key: Seq<char>, token: Seq<char>) -> Option<Seq<u64>> {
    match fernet_plaintext(key, token) {
        Option::None => Option::<Seq<u64>>::None,
        Option::Some(b) => decode_share_bytes(b),
    }
}

/// A contribution is usable at threshold `t`: a positive sample count in
/// range, at least `t` share tokens, each of the first `t` carrying a
/// share, all of one common length.
pub open spec fn submission_valid(key: Seq<char>, sub: WeightsUpdate, t: int) -> bool {
    &&& 1 <= sub.num_samples <= u32::MAX
    &&& sub.model_weights@.len() >= t
    &&& forall|i: int|
        0 <= i < t ==> token_share(key, (#[trigger] sub.model_weights@[i])@) is Some
    &&& forall|i: int|
        0 <= i < t ==> token_share(key, (#[trigger] sub.model_weights@[i])@)->Some_0.len()
            == token_share(key, sub.model_weights@[0]@)->Some_0.len()
}

/// The weight vector a valid contribution carries: its first `t` shares
/// interpolated at zero, coordinate by coordinate, decoded to fixed point.
pub open spec fn submission_vector(key: Seq<char>, sub: WeightsUpdate, t: int) -> Seq<i64> {
    let width = token_share(key, sub.model_weights@[0]@)->Some_0.len();
    Seq::new(
        width,
        |j: int|
            decode_weight_spec(
                lagrange_zero(
                    Seq::new(t as nat, |i: int| (i + 1) as u64),
                    Seq::new(
                        t as nat,
                        |i: int| token_share(key, sub.model_weights@[i]@)->Some_0[j],
                    ),
                ),
            ),
    )
}

/// `vals` are exactly the reconstructed values of the contributions of
/// `batch` selected by the strictly increasing index list `idxs`, every one
/// of them valid: no rejected contribution stands among them, and none of
/// their values is anything but its contribution's own.
pub open spec fn selected_from(
    key: Seq<char>,
    batch: Seq<WeightsUpdate>,
    t: int,
    idxs: Seq<int>,
    vals: Seq<(int, Seq<i64>)>,
) -> bool {
    &&& vals.len() == idxs.len()
    &&& forall|a: int, b: int| 0 <= a < b < idxs.len() ==> #[trigger] idxs[a] < #[trigger] idxs[b]
    &&& forall|a: int| 0 <= a < idxs.len() ==> 0 <= #[trigger] idxs[a] < batch.len()
    &&& forall|a: int|
        0 <= a < idxs.len() ==> submission_valid(key, batch[#[trigger] idxs[a]], t)
    &&& forall|a: int|
        0 <= a < vals.len() ==> (#[trigger] vals[a]) == (
            batch[idxs[a]].num_samples as int,
            submission_vector(key, batch[idxs[a]], t),
        )
}

/// The mathematical view of an executable contribution list.
pub open spec fn vals_view(cs: Seq<(u64, Vec<i64>)>) -> Seq<(int, Seq<i64>)> {
    Seq::new(cs.len(), |i: int| (cs[i].0 as int, cs[i].1@))
}

/// Total sample count of the contributions from position `k` on.
pub open spec fn total_samples_from(vals: Seq<(int, Seq<i64>)>, k: int) -> int
    decreases vals.len() - k,
{
    if k >= vals.len() {
        0
    } else {
        vals[k].0 + total_samples_from(vals, k + 1)
    }
}

/// Sample-weighted sum of coordinate `j` over the contributions from
/// position `k` on.
pub open spec fn weighted_sum_from(vals: Seq<(int, Seq<i64>)>, j: int, k: int) -> int
    decreases vals.len() - k,
{
    if k >= vals.len() {
        0
    } else {
        vals[k].0 * vals[k].1[j] + weighted_sum_from(vals, j, k + 1)
    }
}

/// Signed division rounding toward zero, as machine division does.
pub open spec fn div_toward_zero(a: int, b: int) -> int {
    if a >= 0 {
        a / b
    } else {
        -((-a) / b)
    }
}

/// The federated-averaging rule: coordinate `j` of the new model is the
/// sample-weighted sum over all contributions divided by the total sample
/// count.
pub open spec fn fed_avg_coord(vals: Seq<(int, Seq<i64>)>, j: int) -> int {
    div_toward_zero(weighted_sum_from(vals, j, 0), total_samples_from(vals, 0))
}

/// What the averaging demands of its input: at least one contribution and
/// not more than the count range supports, sample counts positive and in
/// range, one common vector length, every coordinate in the fixed-point
/// weight range.
pub open spec fn fed_input_ok(vals: Seq<(int, Seq<i64>)>) -> bool {
    &&& 1 <= vals.len() <= u32::MAX
    &&& forall|i: int| 0 <= i < vals.len() ==> 1 <= (#[trigger] vals[i]).0 <= u32::MAX
    &&& forall|i: int| 0 <= i < vals.len() ==> (#[trigger] vals[i]).1.len() == vals[0].1.len()
    &&& forall|i: int, j: int|
        0 <= i < vals.len() && 0 <= j < vals[0].1.len() ==> -(FIELD_HALF as int) <= (
        #[trigger] vals[i].1[j]) <= FIELD_HALF as int
}

/// A new model together with a rejection count is a lawful answer for the
/// drained `batch`: some strictly increasing selection of valid
/// contributions, with everything not selected counted as rejected, whose
/// exact sample-weighted average the model is.
pub open spec fn aggregation_of(
    key: Seq<char>,
    batch: Seq<WeightsUpdate>,
    t: int,
    model: Seq<i64>,
    rejected: int,
) -> bool {
    exists|idxs: Seq<int>, vals: Seq<(int, Seq<i64>)>|
        {
            &&& #[trigger] selected_from(key, batch, t, idxs, vals)
            &&& vals.len() + rejected == batch.len()
            &&& fed_input_ok(vals)
            &&& model.len() == vals[0].1.len()
            &&& forall|j: int| 0 <= j < model.len() ==> #[trigger] model[j] == fed_avg_coord(vals, j)
        }
}

/// The tail total is never negative and never exceeds the whole total.
proof fn lemma_total_tail_bounds(vals: Seq<(int, Seq<i64>)>, k: int)
    requires
        0 <= k <= vals.len(),
        forall|i: int| 0 <= i < vals.len() ==> (#[trigger] vals[i]).0 >= 0,
    ensures
        0 <= total_samples_from(vals, k) <= total_samples_from(vals, 0),
    decreases k, vals.len() - k,
{
    if k == 0 {
        lemma_total_tail_nonneg(vals, 0);
    } else {
        lemma_total_tail_bounds(vals, k - 1);
        assert(total_samples_from(vals, k - 1) == vals[k - 1].0 + total_samples_from(vals, k));
        lemma_total_tail_nonneg(vals, k);
    }
}

/// The tail total is never negative.
proof fn lemma_total_tail_nonneg(vals: Seq<(int, Seq<i64>)>, k: int)
    requires
        0 <= k <= vals.len(),
        forall|i: int| 0 <= i < vals.len() ==> (#[trigger] vals[i]).0 >= 0,
    ensures
        total_samples_from(vals, k) >= 0,
    decreases vals.len() - k,
{
    if k < vals.len() {
        lemma_total_tail_nonneg(vals, k + 1);
    }
}

/// Computes the federated average of reconstructed contributions: each
/// coordinate of the result is the sample-weighted sum of that coordinate
/// over all contributions, divided by the total sample count, rounded
/// toward zero. The average of weights in the fixed-point range is again in
/// the fixed-point range.
pub fn federated_average(contributions: &Vec<(u64, Vec<i64>)>) -> (r: Result<
    Vec<i64>,
    AggregationError,
>)
    ensures
        r is Ok <==> fed_input_ok(vals_view(contributions@)),
        r matches Ok(m) ==> {
            &&& m@.len() == contributions@[0].1@.len()
            &&& forall|j: int|
                0 <= j < m@.len() ==> #[trigger] m@[j] == fed_avg_coord(
                    vals_view(contributions@),
                    j,
                ) && -(FIELD_HALF as int) <= m@[j] <= FIELD_HALF as int
        },
{
    let ghost gvals = vals_view(contributions@);
    let n = contributions.len();
    if n == 0 {
        return Err(AggregationError::NoValidContribution);
    }
    if n > u32::MAX as usize {
        return Err(AggregationError::TooManyContributions);
    }
    let width = contributions[0].1.len();
    let mut i: usize = 0;
    while i < n
        invariant
            i <= n,
            n == contributions@.len(),
            gvals == vals_view(contributions@),
            width == contributions@[0].1@.len(),
            forall|q: int|
                0 <= q < i ==> 1 <= (#[trigger] contributions@[q]).0 <= u32::MAX as u64,
            forall|q: int| 0 <= q < i ==> (#[trigger] contributions@[q]).1@.len() == width,
        decreases n - i,
    {
        if contributions[i].0 == 0 || contributions[i].0 > u32::MAX as u64 {
            proof {
                assert(gvals[i as int].0 == contributions@[i as int].0 as int);
                assert(!fed_input_ok(gvals));
            }
            return Err(AggregationError::BadSampleCount);
        }
        if contributions[i].1.len() != width {
            proof {
                assert(gvals[i as int].1 == contributions@[i as int].1@);
                assert(gvals[0].1 == contributions@[0].1@);
                assert(!fed_input_ok(gvals));
            }
            return Err(AggregationError::LengthMismatch);
        }
        i = i + 1;
    }
    i = 0;
    while i < n
        invariant
            i <= n,
            n == contributions@.len(),
            gvals == vals_view(contributions@),
            width == contributions@[0].1@.len(),
            forall|q: int| 0 <= q < n ==> (#[trigger] contributions@[q]).1@.len() == width,
            forall|q: int, w: int|
                0 <= q < i && 0 <= w < width ==> -(FIELD_HALF as int) <= (
                #[trigger] contributions@[q].1@[w]) <= FIELD_HALF as int,
        decreases n - i,
    {
        let mut j: usize = 0;
        while j < width
            invariant
                j <= width,
                i < n,
                n == contributions@.len(),
                gvals == vals_view(contributions@),
                width == contributions@[0].1@.len(),
                forall|q: int| 0 <= q < n ==> (#[trigger] contributions@[q]).1@.len() == width,
                forall|w: int|
                    0 <= w < j ==> -(FIELD_HALF as int) <= (#[trigger] contributions@[i as int].1@[w])
                        <= FIELD_HALF as int,
            decreases width - j,
        {
            let w = contributions[i].1[j];
            if w < -(FIELD_HALF as i64) || w > FIELD_HALF as i64 {
                proof {
                    assert(gvals[i as int].1 == contributions@[i as int].1@);
                    assert(gvals[0].1 == contributions@[0].1@);
                    assert(!fed_input_ok(gvals));
                }
                return Err(AggregationError::WeightOutOfRange);
            }
            j = j + 1;
        }
        i = i + 1;
    }
    proof {
        assert(fed_input_ok(gvals));
    }
    // Total sample count; it fits a u64 because each count and the number
    // of contributions both fit u32.
    let mut total: u64 = 0;
    let mut k: usize = n;
    while k > 0
        invariant
            k <= n,
            n == contributions@.len(),
            n <= u32::MAX as usize,
            gvals == vals_view(contributions@),
            fed_input_ok(gvals),
            total == total_samples_from(gvals, k as int),
            total <= ((n - k) as int) * (u32::MAX as int),
        decreases k,
    {
        k = k - 1;
        proof {
            assert(gvals[k as int] == (contributions@[k as int].0 as int, contributions@[k as int].1@));
            assert(1 <= gvals[k as int].0 <= u32::MAX as int);
            assert(((n - k - 1) as int) * (u32::MAX as int) + (u32::MAX as int) == ((n
                - k) as int) * (u32::MAX as int)) by (nonlinear_arith);
            assert(((n - k) as int) * (u32::MAX as int) <= (u32::MAX as int) * (
            u32::MAX as int)) by (nonlinear_arith)
                requires
                    0 <= (n - k) as int <= u32::MAX as int,
            ;
        }
        total = contributions[k].0 + total;
    }
    proof {
        lemma_total_tail_nonneg(gvals, 1);
        assert(total >= 1);
    }
    // Each coordinate: weighted sum in an i128, then one division.
    let mut model: Vec<i64> = Vec::new();
    let mut j: usize = 0;
    while j < width
        invariant
            j <= width,
            n == contributions@.len(),
            n <= u32::MAX as usize,
            gvals == vals_view(contributions@),
            fed_input_ok(gvals),
            width == contributions@[0].1@.len(),
            total == total_samples_from(gvals, 0),
            1 <= total,
            model@.len() == j,
            forall|q: int|
                0 <= q < j ==> #[trigger] model@[q] == fed_avg_coord(gvals, q) && -(
                FIELD_HALF as int) <= model@[q] <= FIELD_HALF as int,
        decreases width - j,
    {
        let mut acc: i128 = 0;
        let mut k: usize = n;
        while k > 0
            invariant
                k <= n,
                j < width,
                n == contributions@.len(),
                gvals == vals_view(contributions@),
                fed_input_ok(gvals),
                width == contributions@[0].1@.len(),
                total == total_samples_from(gvals, 0),
                acc == weighted_sum_from(gvals, j as int, k as int),
                -total_samples_from(gvals, k as int) * (FIELD_HALF as int) <= acc
                    <= total_samples_from(gvals, k as int) * (FIELD_HALF as int),
            decreases k,
        {
            k = k - 1;
            proof {
                assert(gvals[k as int] == (
                    contributions@[k as int].0 as int,
                    contributions@[k as int].1@,
                ));
                assert(gvals[0].1 == contributions@[0].1@);
                assert(contributions@[k as int].1@.len() == width);
                assert(1 <= gvals[k as int].0 <= u32::MAX as int);
                assert(-(FIELD_HALF as int) <= gvals[k as int].1[j as int] <= FIELD_HALF as int);
            }
            let cnt = contributions[k].0;
            let w = contributions[k].1[j];
            proof {
                lemma_total_tail_bounds(gvals, k as int + 1);
                assert(-((cnt as int) * (FIELD_HALF as int)) <= (cnt as int) * (w as int) <= (
                cnt as int) * (FIELD_HALF as int)) by (nonlinear_arith)
                    requires
                        0 <= cnt as int,
                        -(FIELD_HALF as int) <= w as int <= FIELD_HALF as int,
                ;
                assert((cnt as int) * (FIELD_HALF as int) + total_samples_from(
                    gvals,
                    k as int + 1,
                ) * (FIELD_HALF as int) == total_samples_from(gvals, k as int) * (
                FIELD_HALF as int)) by (nonlinear_arith)
                    requires
                        total_samples_from(gvals, k as int) == cnt as int + total_samples_from(
                            gvals,
                            k as int + 1,
                        ),
                ;
                lemma_total_tail_bounds(gvals, k as int);
                assert(total_samples_from(gvals, k as int) * (FIELD_HALF as int)
                    <= total_samples_from(gvals, 0) * (FIELD_HALF as int)) by (nonlinear_arith)
                    requires
                        0 <= total_samples_from(gvals, k as int) <= total_samples_from(gvals, 0),
                ;
                assert(total_samples_from(gvals, 0) * (FIELD_HALF as int) <= (u64::MAX as int) * (
                FIELD_HALF as int)) by (nonlinear_arith)
                    requires
                        0 <= total_samples_from(gvals, 0) <= u64::MAX as int,
                ;
            }
            acc = acc + (cnt as i128) * (w as i128);
        }
        proof {
            assert(total_samples_from(gvals, 0) * (FIELD_HALF as int) <= (u64::MAX as int) * (
            FIELD_HALF as int)) by (nonlinear_arith)
                requires
                    0 <= total_samples_from(gvals, 0) <= u64::MAX as int,
            ;
        }
        let q: i64;
        if acc >= 0 {
            let mag: u128 = acc as u128;
            let quot = mag / (total as u128);
            proof {
                vstd::arithmetic::div_mod::lemma_div_is_ordered(
                    acc as int,
                    total_samples_from(gvals, 0) * (FIELD_HALF as int),
                    total as int,
                );
                vstd::arithmetic::div_mod::lemma_div_by_multiple(
                    FIELD_HALF as int,
                    total as int,
                );
                assert(total_samples_from(gvals, 0) * (FIELD_HALF as int) == (FIELD_HALF as int) * (
                total as int)) by (nonlinear_arith)
                    requires
                        total as int == total_samples_from(gvals, 0),
                ;
            }
            q = quot as i64;
        } else {
            let mag: u128 = (-acc) as u128;
            let quot = mag / (total as u128);
            proof {
                vstd::arithmetic::div_mod::lemma_div_is_ordered(
                    -(acc as int),
                    total_samples_from(gvals, 0) * (FIELD_HALF as int),
                    total as int,
                );
                vstd::arithmetic::div_mod::lemma_div_by_multiple(
                    FIELD_HALF as int,
                    total as int,
                );
                assert(total_samples_from(gvals, 0) * (FIELD_HALF as int) == (FIELD_HALF as int) * (
                total as int)) by (nonlinear_arith)
                    requires
                        total as int == total_samples_from(gvals, 0),
                ;
            }
            q = -(quot as i64);
        }
        model.push(q);
        j = j + 1;
    }
    Ok(model)
}

/// Decrypts and reconstructs one contribution: the first `threshold` tokens
/// are decrypted, their shares interpolated at the shareholder indices
/// `1..=threshold`, the result decoded to fixed point. An invalid
/// contribution is always turned away; a valid one is accepted unless the
/// cipher refuses a token, which it may of a token stamped in the future of
/// this machine's clock.
pub fn decrypt_contribution(cipher: &ShareCipher, sub: &WeightsUpdate, threshold: usize) -> (r:
    Option<(u64, Vec<i64>)>)
    requires
        1 <= threshold <= MAX_SHARES,
    ensures
        r matches Some(p) ==> {
            &&& submission_valid(cipher.key_view(), *sub, threshold as int)
            &&& p.0 as int == sub.num_samples as int
            &&& 1 <= p.0 <= u32::MAX as u64
            &&& p.1@ == submission_vector(cipher.key_view(), *sub, threshold as int)
            &&& forall|j: int|
                0 <= j < p.1@.len() ==> -(FIELD_HALF as int) <= (#[trigger] p.1@[j])
                    <= FIELD_HALF as int
        },
{
    let ghost key = cipher.key_view();
    if sub.num_samples == 0 || sub.num_samples > u32::MAX as usize {
        return None;
    }
    if sub.model_weights.len() < threshold {
        return None;
    }
    let mut pairs: Vec<(u64, Vec<u64>)> = Vec::new();
    let mut i: usize = 0;
    while i < threshold
        invariant
            i <= threshold,
            1 <= threshold <= MAX_SHARES,
            key == cipher.key_view(),
            sub.model_weights@.len() >= threshold,
            pairs@.len() == i,
            forall|q: int| 0 <= q < i ==> (#[trigger] pairs@[q]).0 == q + 1,
            forall|q: int|
                0 <= q < i ==> token_share(key, sub.model_weights@[q]@) == Some(
                    (#[trigger] pairs@[q]).1@,
                ),
            forall|q: int, w: int|
                0 <= q < i && 0 <= w < pairs@[q].1@.len() ==> (#[trigger] pairs@[q].1@[w])
                    < FIELD_P,
        decreases threshold - i,
    {
        match decrypt_share(cipher, sub.model_weights[i].as_str()) {
            Ok(s) => {
                pairs.push(((i as u64) + 1, s));
            },
            Err(_) => {
                return None;
            },
        }
        i = i + 1;
    }
    let width = pairs[0].1.len();
    let mut q: usize = 0;
    while q < threshold
        invariant
            q <= threshold,
            1 <= threshold <= MAX_SHARES,
            pairs@.len() == threshold,
            width == pairs@[0].1@.len(),
            forall|w: int| 0 <= w < q ==> (#[trigger] pairs@[w]).1@.len() == width,
        decreases threshold - q,
    {
        if pairs[q].1.len() != width {
            return None;
        }
        q = q + 1;
    }
    proof {
        assert(combine_input_ok(pairs@, threshold as int));
    }
    match combine(&pairs, threshold) {
        Ok(vals) => {
            let mut out: Vec<i64> = Vec::new();
            let mut j: usize = 0;
            while j < vals.len()
                invariant
                    j <= vals@.len(),
                    vals@.len() == width,
                    forall|w: int|
                        0 <= w < vals@.len() ==> (#[trigger] vals@[w]) == lagrange_zero(
                            share_xs(pairs@),
                            share_ys(pairs@, w),
                        ) && vals@[w] < FIELD_P,
                    out@.len() == j,
                    forall|w: int|
                        0 <= w < j ==> (#[trigger] out@[w]) == decode_weight_spec(vals@[w]) && -(
                        FIELD_HALF as int) <= out@[w] <= FIELD_HALF as int,
                decreases vals@.len() - j,
            {
                out.push(decode_weight(vals[j]));
                j = j + 1;
            }
            proof {
                assert forall|w: int|
                    0 <= w < threshold as int implies token_share(
                    key,
                    (#[trigger] sub.model_weights@[w])@,
                ) is Some by {
                    assert(token_share(key, sub.model_weights@[w]@) == Some(pairs@[w].1@));
                }
                assert forall|w: int|
                    0 <= w < threshold as int implies token_share(
                    key,
                    (#[trigger] sub.model_weights@[w])@,
                )->Some_0.len() == token_share(key, sub.model_weights@[0]@)->Some_0.len() by {
                    assert(token_share(key, sub.model_weights@[w]@) == Some(pairs@[w].1@));
                    assert(pairs@[w].1@.len() == width);
                    assert(token_share(key, sub.model_weights@[0]@) == Some(pairs@[0].1@));
                }
                assert(submission_valid(key, *sub, threshold as int));
                let t = threshold as int;
                let sv = submission_vector(key, *sub, t);
                assert(share_xs(pairs@) =~= Seq::new(t as nat, |i: int| (i + 1) as u64));
                assert(token_share(key, sub.model_weights@[0]@)->Some_0.len() == width);
                assert forall|w: int| 0 <= w < width implies #[trigger] out@[w] == sv[w] by {
                    assert(share_ys(pairs@, w) =~= Seq::new(
                        t as nat,
                        |i: int| token_share(key, sub.model_weights@[i]@)->Some_0[w],
                    ));
                }
                assert(out@ =~= sv);
            }
            Some((sub.num_samples as u64, out))
        },
        Err(_) => {
            proof {
                assert(false);
            }
            None
        },
    }
}

/// The aggregation server's whole protected state: the goal and threshold
/// fixed at startup, the version counter it alone advances, the buffer of
/// pending contributions, the global model, and the share cipher under the
/// deployment's pre-shared key. The host serializes access to a value of
/// this type; each call below is one critical section.
pub struct AppState {
    pub aggregation_goal: usize,
    pub current_model_version: u64,
    pub client_updates: Vec<WeightsUpdate>,
    pub global_model: Vec<i64>,
    pub threshold: usize,
    pub cipher: ShareCipher,
}

impl AppState {
    /// The shared key contributions are decrypted with.
    pub open spec fn key(&self) -> Seq<char> {
        self.cipher.key_view()
    }

    /// Structural soundness: a positive goal within the supported range, a
    /// threshold the share-index range supports, and a buffer strictly
    /// below the goal — it is drained the moment the goal is met.
    pub open spec fn wf(&self) -> bool {
        &&& 1 <= self.aggregation_goal <= u32::MAX
        &&& 1 <= self.threshold <= MAX_SHARES
        &&& self.client_updates@.len() < self.aggregation_goal
    }

    /// Builds the server state for a deployment. Each parameter is checked;
    /// a bad one is a configuration error, fatal at startup.
    pub fn new(
        aggregation_goal: usize,
        threshold: usize,
        key: &str,
        initial_model: Vec<i64>,
    ) -> (r: Result<AppState, ConfigError>)
        ensures
            r is Ok <==> (1 <= aggregation_goal <= u32::MAX && 1 <= threshold <= MAX_SHARES
                && fernet_key_ok(key@)),
            r matches Ok(s) ==> {
                &&& s.wf()
                &&& s.aggregation_goal == aggregation_goal
                &&& s.threshold == threshold
                &&& s.key() == key@
                &&& s.current_model_version == 0
                &&& s.client_updates@.len() == 0
                &&& s.global_model@ == initial_model@
            },
            r matches Err(e) ==> {
                &&& (e == ConfigError::InvalidAggregationGoal <==> !(1 <= aggregation_goal
                    <= u32::MAX))
                &&& (e == ConfigError::InvalidThreshold <==> (1 <= aggregation_goal <= u32::MAX
                    && !(1 <= threshold <= MAX_SHARES)))
                &&& (e == ConfigError::InvalidKey <==> (1 <= aggregation_goal <= u32::MAX && 1
                    <= threshold <= MAX_SHARES && !fernet_key_ok(key@)))
            },
    {
        if aggregation_goal == 0 || aggregation_goal > u32::MAX as usize {
            return Err(ConfigError::InvalidAggregationGoal);
        }
        if threshold == 0 || threshold > MAX_SHARES {
            return Err(ConfigError::InvalidThreshold);
        }
        match ShareCipher::new(key) {
            Some(cipher) => Ok(
                AppState {
                    aggregation_goal,
                    current_model_version: 0,
                    client_updates: Vec::new(),
                    global_model: initial_model,
                    threshold,
                    cipher,
                },
            ),
            None => Err(ConfigError::InvalidKey),
        }
    }

    /// The stock state: goal one, the deployed threshold, an empty model at
    /// version zero, and a freshly generated key.
    pub fn default() -> (r: AppState)
        ensures
            r.wf(),
            r.aggregation_goal == 1,
            r.threshold == crate::config::DEFAULT_THRESHOLD,
            r.current_model_version == 0,
            r.client_updates@.len() == 0,
            r.global_model@ == Seq::<i64>::empty(),
    {
        let key = ShareCipher::generate_key();
        match ShareCipher::new(key.as_str()) {
            Some(cipher) => AppState {
                aggregation_goal: 1,
                current_model_version: 0,
                client_updates: Vec::new(),
                global_model: Vec::new(),
                threshold: crate::config::DEFAULT_THRESHOLD,
                cipher,
            },
            None => {
                proof {
                    assert(false);
                }
                vstd::pervasive::unreached()
            },
        }
    }
}

/// A read-only snapshot of the global model: the version and the weights it
/// carries, read together, so the pair is internally consistent.
pub fn get_model(state: &AppState) -> (r: (u64, Vec<i64>))
    ensures
        r.0 == state.current_model_version,
        r.1@ == state.global_model@,
{
    let mut w: Vec<i64> = Vec::new();
    let mut i: usize = 0;
    while i < state.global_model.len()
        invariant
            i <= state.global_model@.len(),
            w@ == state.global_model@.subrange(0, i as int),
        decreases state.global_model@.len() - i,
    {
        w.push(state.global_model[i]);
        proof {
            assert(w@ =~= state.global_model@.subrange(0, i as int + 1));
        }
        i = i + 1;
    }
    proof {
        assert(w@ =~= state.global_model@);
    }
    (state.current_model_version, w)
}

/// Takes one submission. A stale version is turned away with a conflict and
/// changes nothing. A fresh submission is buffered; the one that meets the
/// aggregation goal drains the whole buffer, and the server reconstructs
/// the drained contributions, averages the ones that survive weighted by
/// their sample counts, installs the average as the new global model and
/// advances the version by exactly one. Contributions that fail decryption
/// or reconstruction are rejected and reported in the outcome, and never
/// enter the average; if no new model can be built the drained batch is
/// consumed and the model and version stay untouched.
pub fn update_model(state: &mut AppState, update: WeightsUpdate) -> (r: AggregationOutcome)
    requires
        old(state).wf(),
        old(state).current_model_version < u64::MAX,
    ensures
        final(state).wf(),
        final(state).aggregation_goal == old(state).aggregation_goal,
        final(state).threshold == old(state).threshold,
        final(state).key() == old(state).key(),
        r is VersionConflict <==> update.model_version < old(state).current_model_version,
        update.model_version < old(state).current_model_version ==> {
            &&& r matches AggregationOutcome::VersionConflict { current_version } &&
                current_version == old(state).current_model_version
            &&& final(state).current_model_version == old(state).current_model_version
            &&& final(state).client_updates@ == old(state).client_updates@
            &&& final(state).global_model@ == old(state).global_model@
        },
        update.model_version >= old(state).current_model_version && old(
            state,
        ).client_updates@.len() + 1 < old(state).aggregation_goal ==> {
            &&& r matches AggregationOutcome::Buffered { received, needed } && received == old(
                state,
            ).client_updates@.len() + 1 && needed == old(state).aggregation_goal - received
            &&& final(state).client_updates@ == old(state).client_updates@.push(update)
            &&& final(state).current_model_version == old(state).current_model_version
            &&& final(state).global_model@ == old(state).global_model@
        },
        update.model_version >= old(state).current_model_version && old(
            state,
        ).client_updates@.len() + 1 == old(state).aggregation_goal ==> {
            &&& final(state).client_updates@.len() == 0
            &&& (r is Aggregated || r is AggregationFailed)
            &&& (r matches AggregationOutcome::Aggregated { new_version, rejected } ==> {
                &&& new_version == old(state).current_model_version + 1
                &&& final(state).current_model_version == old(state).current_model_version + 1
                &&& aggregation_of(
                    old(state).key(),
                    old(state).client_updates@.push(update),
                    old(state).threshold as int,
                    final(state).global_model@,
                    rejected as int,
                )
            })
            &&& (r is AggregationFailed ==> final(state).current_model_version == old(
                state,
            ).current_model_version && final(state).global_model@ == old(state).global_model@)
        },
{
    if update.model_version < state.current_model_version {
        return AggregationOutcome::VersionConflict {
            current_version: state.current_model_version,
        };
    }
    state.client_updates.push(update);
    let received = state.client_updates.len();
    if received < state.aggregation_goal {
        return AggregationOutcome::Buffered {
            received,
            needed: state.aggregation_goal - received,
        };
    }
    // The goal is met: drain the buffer atomically and aggregate.
    let mut batch: Vec<WeightsUpdate> = Vec::new();
    std::mem::swap(&mut batch, &mut state.client_updates);
    let ghost key = state.key();
    let ghost t = state.threshold as int;
    let mut valid: Vec<(u64, Vec<i64>)> = Vec::new();
    let mut rejected: usize = 0;
    let ghost mut gidxs: Seq<int> = Seq::empty();
    let mut i: usize = 0;
    while i < batch.len()
        invariant
            i <= batch@.len(),
            key == state.key(),
            t == state.threshold as int,
            1 <= state.threshold <= MAX_SHARES,
            valid@.len() + rejected == i,
            gidxs.len() == valid@.len(),
            forall|a: int| 0 <= a < gidxs.len() ==> 0 <= #[trigger] gidxs[a] < i,
            selected_from(key, batch@, t, gidxs, vals_view(valid@)),
            forall|q: int|
                0 <= q < valid@.len() ==> 1 <= (#[trigger] valid@[q]).0 <= u32::MAX as u64,
            forall|q: int, w: int|
                0 <= q < valid@.len() && 0 <= w < valid@[q].1@.len() ==> -(FIELD_HALF as int) <= (
                #[trigger] valid@[q].1@[w]) <= FIELD_HALF as int,
        decreases batch@.len() - i,
    {
        match decrypt_contribution(&state.cipher, &batch[i], state.threshold) {
            Some(pair) => {
                let ghost prev_vals = vals_view(valid@);
                let ghost prev_idxs = gidxs;
                let ghost gp = (pair.0 as int, pair.1@);
                valid.push(pair);
                proof {
                    gidxs = prev_idxs.push(i as int);
                    assert(vals_view(valid@) =~= prev_vals.push(gp));
                    assert forall|a: int, b: int|
                        0 <= a < b < gidxs.len() implies #[trigger] gidxs[a] < #[trigger] gidxs[b] by {
                        if b == gidxs.len() - 1 {
                            assert(gidxs[b] == i as int);
                            assert(gidxs[a] == prev_idxs[a]);
                        }
                    }
                    assert(selected_from(key, batch@, t, gidxs, vals_view(valid@)));
                }
            },
            None => {
                rejected = rejected + 1;
            },
        }
        i = i + 1;
    }
    if valid.len() == 0 {
        return AggregationOutcome::AggregationFailed {
            reason: AggregationError::NoValidContribution,
        };
    }
    match federated_average(&valid) {
        Ok(m) => {
            state.global_model = m;
            state.current_model_version = state.current_model_version + 1;
            proof {
                let vals = vals_view(valid@);
                assert(selected_from(key, batch@, t, gidxs, vals) && vals.len()
                    + rejected == batch@.len() && fed_input_ok(vals)
                    && final(state).global_model@.len() == vals[0].1.len() && forall|j: int|
                    0 <= j < final(state).global_model@.len()
                        ==> #[trigger] final(state).global_model@[j] == fed_avg_coord(vals, j));
                assert(aggregation_of(key, batch@, t, final(state).global_model@, rejected as int));
            }
            AggregationOutcome::Aggregated {
                new_version: state.current_model_version,
                rejected,
            }
        },
        Err(e) => AggregationOutcome::AggregationFailed { reason: e },
    }
}

} // verus!
