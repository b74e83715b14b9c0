//! Configuration validation: construction succeeds exactly for strictly
//! negative values within the maxima, and each rejection names the
//! offending parameter.

use earpeace::errors::ConfigError;
use earpeace::limiter::Limiter;
use earpeace::normalizer::Normalizer;

#[test]
fn test_invalid_parameters() {
    // Test exceeding max target loudness (-9.00 LUFS is louder than -15)
    let result = Normalizer::new(-900, -100);
    assert!(
        result.is_err(),
        "Should error when target loudness > -10.0 LUFS"
    );
    if let Err(e) = result {
        assert!(
            e.message().contains("Target loudness"),
            "Error message should mention target loudness"
        );
    }

    // Test exceeding max peak ceiling
    let result = Normalizer::new(-1500, 0);
    assert!(result.is_err(), "Should error when peak ceiling > -0.1 dBFS");
    if let Err(e) = result {
        assert!(
            e.message().contains("Peak ceiling"),
            "Error message should mention peak ceiling"
        );
    }

    // Test valid parameters
    let result = Normalizer::new(-1500, -100);
    assert!(result.is_ok(), "Should accept valid parameters");
}

#[test]
fn test_negative_value_requirements() {
    // Test positive target loudness
    let result = Normalizer::new(100, -100);
    assert!(
        result.is_err(),
        "Should error when target loudness is positive"
    );
    if let Err(e) = result {
        assert!(
            e.message().contains("must be negative"),
            "Error message should mention negative requirement"
        );
    }

    // Test zero target loudness
    let result = Normalizer::new(0, -100);
    assert!(result.is_err(), "Should error when target loudness is zero");

    // Test positive peak ceiling
    let result = Normalizer::new(-1500, 100);
    assert!(result.is_err(), "Should error when peak ceiling is positive");
    if let Err(e) = result {
        assert!(
            e.message().contains("must be negative"),
            "Error message should mention negative requirement"
        );
    }

    // Test zero peak ceiling
    let result = Normalizer::new(-1500, 0);
    assert!(result.is_err(), "Should error when peak ceiling is zero");

    // Test valid negative values
    let result = Normalizer::new(-1500, -100);
    assert!(result.is_ok(), "Should accept valid negative parameters");
}

#[test]
fn test_normalizer_error_variants() {
    assert_eq!(
        Normalizer::new(0, -100),
        Err(ConfigError::TargetLoudnessNotNegative)
    );
    assert_eq!(
        Normalizer::new(-1500, 0),
        Err(ConfigError::PeakCeilingNotNegative)
    );
    assert_eq!(
        Normalizer::new(-1400, -100),
        Err(ConfigError::TargetLoudnessAboveMax)
    );
    assert_eq!(
        Normalizer::new(-1500, -5),
        Err(ConfigError::PeakCeilingAboveMax)
    );
}

#[test]
fn test_normalizer_default_is_valid() {
    let n = Normalizer::default();
    assert_eq!(n.target_loudness, Normalizer::DEFAULT_TARGET_LOUDNESS);
    assert_eq!(n.target_peak, Normalizer::DEFAULT_TARGET_PEAK);
    assert!(Normalizer::new(n.target_loudness, n.target_peak).is_ok());
}

#[test]
fn test_limiter_construction_boundaries() {
    // threshold must be negative
    let r = Limiter::new(0, 50, 5);
    assert_eq!(r.unwrap_err(), ConfigError::ThresholdNotNegative);
    assert!(ConfigError::ThresholdNotNegative
        .message()
        .contains("Threshold must be negative"));

    // threshold must not exceed -0.1 dBFS
    let r = Limiter::new(-5, 50, 5);
    assert_eq!(r.unwrap_err(), ConfigError::ThresholdAboveMax);

    // release time must be positive
    let r = Limiter::new(-100, 0, 5);
    assert_eq!(r.unwrap_err(), ConfigError::ReleaseTimeNotPositive);
    assert!(ConfigError::ReleaseTimeNotPositive
        .message()
        .contains("Release time must be positive"));

    // lookahead must be nonzero
    let r = Limiter::new(-100, 50, 0);
    assert_eq!(r.unwrap_err(), ConfigError::LookaheadZero);
    assert!(ConfigError::LookaheadZero
        .message()
        .contains("Lookahead must be greater than 0ms"));

    // a valid configuration constructs with its fields kept
    let l = Limiter::new(-100, 50, 5).unwrap();
    assert_eq!(l.threshold, -100);
    assert_eq!(l.release_time, 50);
    assert_eq!(l.lookahead, 5);
}

#[test]
fn test_limiter_default_is_valid() {
    let l = Limiter::default();
    assert_eq!(l.threshold, Limiter::DEFAULT_THRESHOLD);
    assert_eq!(l.release_time, Limiter::DEFAULT_RELEASE_TIME);
    assert_eq!(l.lookahead, Limiter::DEFAULT_LOOKAHEAD_MS);
    assert!(Limiter::new(l.threshold, l.release_time, l.lookahead).is_ok());
}
