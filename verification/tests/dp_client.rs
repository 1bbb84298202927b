use rand_distr::{Distribution, Normal};
use rustfl::client::{protect_update, round_step, RoundEvent, RoundPhase};
use rustfl::cipher::{ShareCipher, decrypt_share};
use rustfl::config::Config;
use rustfl::dp::DPMechanism;
use rustfl::errors::{ConfigError, NoiseError, ProtectError};
use rustfl::shamir::combine;
use rustfl::codec::decode_weight;

#[test]
fn config_defaults() {
    let c = Config::new();
    assert_eq!(c.learning_rate, 1000);
    assert_eq!(c.batch_size, 64);
    assert_eq!(c.noise_level, 100000);
    assert_eq!(c.num_rounds, 3);
    assert_eq!(c.sensitivity, 1000000);
    assert_eq!(c.epsilon, 500000);
}

#[test]
fn noise_scale_is_sensitivity_over_epsilon() {
    // sensitivity 1.0, epsilon 0.5: scale 2.0, in micro-units 2000000.
    let dp = DPMechanism::new(500000, 1000000).unwrap();
    assert_eq!(dp.noise_scale().unwrap(), 2000000);
    // A zero privacy budget is a fatal configuration error.
    assert_eq!(
        DPMechanism::new(0, 1000000).unwrap_err(),
        ConfigError::InvalidEpsilon
    );
}

#[test]
fn add_noise_adds_exactly() {
    let dp = DPMechanism::new(500000, 1000000).unwrap();
    let weights = vec![1000000i64, -2000000, 0];
    let noise = vec![-500000i64, 250000, 7];
    assert_eq!(
        dp.add_noise(&weights, &noise).unwrap(),
        vec![500000, -1750000, 7]
    );
    assert_eq!(
        dp.add_noise(&weights, &vec![0]).unwrap_err(),
        NoiseError::LengthMismatch
    );
    assert_eq!(
        dp.add_noise(&vec![i64::MAX], &vec![1]).unwrap_err(),
        NoiseError::Overflow
    );
}

#[test]
fn noise_calibration_matches_scale() {
    // Many samples at the prescribed scale: the sample standard deviation
    // of the noised constant vector approaches sensitivity / epsilon.
    let dp = DPMechanism::new(500000, 1000000).unwrap();
    let sigma = dp.noise_scale().unwrap() as f64 / 1e6;
    assert_eq!(sigma, 2.0);
    let n = 20000usize;
    let normal = Normal::new(0.0f64, sigma).unwrap();
    let mut rng = rand::rng();
    let weights = vec![0i64; n];
    let noise: Vec<i64> = (0..n)
        .map(|_| (normal.sample(&mut rng) * 1e6) as i64)
        .collect();
    let noised = dp.add_noise(&weights, &noise).unwrap();
    let vals: Vec<f64> = noised.iter().map(|v| *v as f64 / 1e6).collect();
    let mean = vals.iter().sum::<f64>() / n as f64;
    let var = vals.iter().map(|v| (v - mean) * (v - mean)).sum::<f64>() / (n as f64 - 1.0);
    let std = var.sqrt();
    assert!(
        (std - sigma).abs() < 0.1,
        "sample std {} far from {}",
        std,
        sigma
    );
}

#[test]
fn protect_update_tokens_reconstruct_the_noised_vector() {
    let cipher = ShareCipher::new(&ShareCipher::generate_key()).unwrap();
    let dp = DPMechanism::new(500000, 1000000).unwrap();
    let weights = vec![1000000i64, -3000000];
    let noise = vec![250000i64, 250000];
    let tokens = protect_update(&cipher, &dp, &weights, &noise, 3, 2).unwrap();
    assert_eq!(tokens.len(), 3);
    // Decrypt two shares and reconstruct: exactly the noised weights.
    let s1 = decrypt_share(&cipher, &tokens[0]).unwrap();
    let s3 = decrypt_share(&cipher, &tokens[2]).unwrap();
    let recon = combine(&vec![(1, s1), (3, s3)], 2).unwrap();
    let recovered: Vec<i64> = recon.iter().map(|e| decode_weight(*e)).collect();
    assert_eq!(recovered, vec![1250000, -2750000]);
}

#[test]
fn protect_update_rejects_bad_input() {
    let cipher = ShareCipher::new(&ShareCipher::generate_key()).unwrap();
    let dp = DPMechanism::new(500000, 1000000).unwrap();
    assert_eq!(
        protect_update(&cipher, &dp, &vec![1], &vec![], 3, 2).unwrap_err(),
        ProtectError::NoiseLengthMismatch
    );
    assert_eq!(
        protect_update(&cipher, &dp, &vec![i64::MAX], &vec![1], 3, 2).unwrap_err(),
        ProtectError::NoiseOverflow
    );
    assert_eq!(
        protect_update(&cipher, &dp, &vec![i64::MAX], &vec![0], 3, 2).unwrap_err(),
        ProtectError::WeightOutOfRange
    );
    assert!(matches!(
        protect_update(&cipher, &dp, &vec![1], &vec![1], 2, 3).unwrap_err(),
        ProtectError::Sharing(_)
    ));
}

#[test]
fn round_controller_happy_path() {
    let mut phase = RoundPhase::Idle;
    phase = round_step(phase, RoundEvent::Start);
    assert_eq!(phase, RoundPhase::Fetching);
    phase = round_step(phase, RoundEvent::FetchOk { model_version: 4 });
    assert_eq!(phase, RoundPhase::Training { model_version: 4 });
    phase = round_step(phase, RoundEvent::TrainDone);
    assert_eq!(phase, RoundPhase::Protecting { model_version: 4 });
    phase = round_step(phase, RoundEvent::ProtectDone);
    assert_eq!(phase, RoundPhase::Submitting { model_version: 4 });
    phase = round_step(phase, RoundEvent::SubmitAccepted);
    assert_eq!(phase, RoundPhase::Accepted);
}

#[test]
fn round_controller_conflict_refetches() {
    // A version conflict discards the stale update and re-enters fetching.
    let phase = RoundPhase::Submitting { model_version: 1 };
    assert_eq!(
        round_step(phase, RoundEvent::SubmitConflict),
        RoundPhase::Fetching
    );
    // A fetch failure abandons the round.
    assert_eq!(
        round_step(RoundPhase::Fetching, RoundEvent::FetchFailed),
        RoundPhase::Idle
    );
    // Any other submission failure is fatal for the round.
    assert_eq!(
        round_step(phase, RoundEvent::SubmitFailed),
        RoundPhase::Failed
    );
    // An unexpected event changes nothing.
    assert_eq!(
        round_step(RoundPhase::Accepted, RoundEvent::TrainDone),
        RoundPhase::Accepted
    );
}
