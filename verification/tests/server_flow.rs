use rustfl::server::{
    AppState, WeightsUpdate, AggregationOutcome, get_model, update_model, federated_average,
};
use rustfl::cipher::ShareCipher;
use rustfl::client::protect_update;
use rustfl::dp::DPMechanism;
use rustfl::errors::AggregationError;

fn protected_update(
    state: &AppState,
    weights: Vec<i64>,
    num_samples: usize,
    model_version: u64,
) -> WeightsUpdate {
    let dp = DPMechanism::new(500000, 1000000).unwrap();
    let zero_noise = vec![0i64; weights.len()];
    let tokens = protect_update(&state.cipher, &dp, &weights, &zero_noise, 3, 2).unwrap();
    WeightsUpdate {
        model_weights: tokens,
        num_samples,
        loss: 250000,
        model_version,
    }
}

#[test]
fn test_get_model() {
    let state = AppState::default();
    let (version, weights) = get_model(&state);
    assert_eq!(version, 0);
    assert!(weights.is_empty());
}

#[test]
fn test_update_model() {
    // Goal one: a single valid submission triggers aggregation at once.
    let mut state = AppState::default();
    let update = protected_update(&state, vec![1000000, -2000000], 100, 0);
    let outcome = update_model(&mut state, update);
    match outcome {
        AggregationOutcome::Aggregated {
            new_version,
            rejected,
        } => {
            assert_eq!(new_version, 1);
            assert_eq!(rejected, 0);
        }
        _ => panic!("expected aggregation"),
    }
    assert_eq!(state.current_model_version, 1);
    assert!(state.client_updates.is_empty());
    // One contribution averages to itself.
    assert_eq!(state.global_model, vec![1000000, -2000000]);
}

#[test]
fn threshold_crossing_changes_version_exactly_once() {
    // Goal three: two submissions buffer and change nothing; the third
    // aggregates, advances the version by one, drains the buffer.
    let key = ShareCipher::generate_key();
    let mut state = AppState::new(3, 2, &key, vec![0, 0]).unwrap();
    for expected_received in 1..=2usize {
        let update = protected_update(&state, vec![1000000, 1000000], 10, 0);
        match update_model(&mut state, update) {
            AggregationOutcome::Buffered { received, needed } => {
                assert_eq!(received, expected_received);
                assert_eq!(needed, 3 - expected_received);
            }
            _ => panic!("expected buffering"),
        }
        assert_eq!(state.current_model_version, 0);
        assert_eq!(state.global_model, vec![0, 0]);
    }
    let update = protected_update(&state, vec![1000000, 1000000], 10, 0);
    match update_model(&mut state, update) {
        AggregationOutcome::Aggregated {
            new_version,
            rejected,
        } => {
            assert_eq!(new_version, 1);
            assert_eq!(rejected, 0);
        }
        _ => panic!("expected aggregation"),
    }
    assert_eq!(state.current_model_version, 1);
    assert!(state.client_updates.is_empty());
}

#[test]
fn stale_version_conflicts_and_changes_nothing() {
    let key = ShareCipher::generate_key();
    let mut state = AppState::new(1, 2, &key, vec![]).unwrap();
    // Advance the server to version one.
    let update = protected_update(&state, vec![500000], 5, 0);
    update_model(&mut state, update);
    assert_eq!(state.current_model_version, 1);
    let model_before = state.global_model.clone();
    // A submission computed against version zero is now stale.
    let stale = protected_update(&state, vec![9000000], 50, 0);
    match update_model(&mut state, stale) {
        AggregationOutcome::VersionConflict { current_version } => {
            assert_eq!(current_version, 1);
        }
        _ => panic!("expected a version conflict"),
    }
    assert_eq!(state.current_model_version, 1);
    assert_eq!(state.global_model, model_before);
    assert!(state.client_updates.is_empty());
}

#[test]
fn end_to_end_two_clients() {
    // Goal two. Client one trains on 10 samples with weights [1.0, 1.0];
    // client two on 30 samples with [3.0, 3.0]; noise is zero. The
    // aggregate is (10*1.0 + 30*3.0) / 40 = 2.5 per coordinate and the
    // version moves from zero to one.
    let key = ShareCipher::generate_key();
    let mut state = AppState::new(2, 2, &key, vec![0, 0]).unwrap();
    let update1 = protected_update(&state, vec![1000000, 1000000], 10, 0);
    let update2 = protected_update(&state, vec![3000000, 3000000], 30, 0);
    match update_model(&mut state, update1) {
        AggregationOutcome::Buffered { received, needed } => {
            assert_eq!(received, 1);
            assert_eq!(needed, 1);
        }
        _ => panic!("expected buffering"),
    }
    match update_model(&mut state, update2) {
        AggregationOutcome::Aggregated {
            new_version,
            rejected,
        } => {
            assert_eq!(new_version, 1);
            assert_eq!(rejected, 0);
        }
        _ => panic!("expected aggregation"),
    }
    assert_eq!(state.current_model_version, 1);
    assert_eq!(state.global_model, vec![2500000, 2500000]);
    let (version, weights) = get_model(&state);
    assert_eq!(version, 1);
    assert_eq!(weights, vec![2500000, 2500000]);
}

#[test]
fn bad_contribution_is_rejected_not_aggregated() {
    let key = ShareCipher::generate_key();
    let mut state = AppState::new(2, 2, &key, vec![0]).unwrap();
    let good = protected_update(&state, vec![1000000], 10, 0);
    let garbage = WeightsUpdate {
        model_weights: vec!["junk1".to_string(), "junk2".to_string(), "junk3".to_string()],
        num_samples: 99,
        loss: 0,
        model_version: 0,
    };
    update_model(&mut state, garbage);
    match update_model(&mut state, good) {
        AggregationOutcome::Aggregated {
            new_version,
            rejected,
        } => {
            assert_eq!(new_version, 1);
            assert_eq!(rejected, 1);
        }
        _ => panic!("expected aggregation with one rejection"),
    }
    // The bad share never corrupted the average of the good one.
    assert_eq!(state.global_model, vec![1000000]);
}

#[test]
fn all_bad_contributions_fail_the_cycle() {
    let key = ShareCipher::generate_key();
    let mut state = AppState::new(1, 2, &key, vec![7]).unwrap();
    let garbage = WeightsUpdate {
        model_weights: vec!["junk1".to_string(), "junk2".to_string()],
        num_samples: 1,
        loss: 0,
        model_version: 0,
    };
    match update_model(&mut state, garbage) {
        AggregationOutcome::AggregationFailed { reason } => {
            assert_eq!(reason, AggregationError::NoValidContribution);
        }
        _ => panic!("expected a failed cycle"),
    }
    // Not partially applied: model and version untouched, batch consumed.
    assert_eq!(state.current_model_version, 0);
    assert_eq!(state.global_model, vec![7]);
    assert!(state.client_updates.is_empty());
}

#[test]
fn federated_average_exact_values() {
    let contributions = vec![(10u64, vec![1000000i64]), (30u64, vec![3000000i64])];
    assert_eq!(federated_average(&contributions).unwrap(), vec![2500000]);
    let signed = vec![(1u64, vec![-1000000i64]), (3u64, vec![1000000i64])];
    assert_eq!(federated_average(&signed).unwrap(), vec![500000]);
    // Truncation toward zero on a negative quotient.
    let trunc = vec![(1u64, vec![1i64]), (2u64, vec![-2i64])];
    assert_eq!(federated_average(&trunc).unwrap(), vec![-1]);
}

#[test]
fn federated_average_rejects_bad_input() {
    let empty: Vec<(u64, Vec<i64>)> = vec![];
    assert_eq!(
        federated_average(&empty).unwrap_err(),
        AggregationError::NoValidContribution
    );
    assert_eq!(
        federated_average(&vec![(0u64, vec![1i64])]).unwrap_err(),
        AggregationError::BadSampleCount
    );
    assert_eq!(
        federated_average(&vec![(1u64, vec![1i64]), (1u64, vec![1i64, 2i64])]).unwrap_err(),
        AggregationError::LengthMismatch
    );
    assert_eq!(
        federated_average(&vec![(1u64, vec![i64::MAX])]).unwrap_err(),
        AggregationError::WeightOutOfRange
    );
}
