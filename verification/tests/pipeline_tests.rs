//! The orchestrator: state transitions, both dynamics modes, and the
//! all-zero end-to-end scenario.

use earpeace::dsp::{db_to_linear, max_peak, SCALE};
use earpeace::errors::MeasurementError;
use earpeace::limiter::Limiter;
use earpeace::normalizer::Normalizer;
use earpeace::pipeline::{run, DynamicsMode, Pipeline};

#[test]
fn test_zero_buffer_normalizes_to_zero_buffer() {
    // an all-zero buffer of any length normalizes to an all-zero buffer,
    // with no configuration error and no arithmetic failure
    for len in [0usize, 1, 17, 48_000] {
        let buf = vec![0i64; len];
        let n = Normalizer::new(-1800, -100).unwrap();
        let out = run(n, DynamicsMode::Clamp, &buf, 1, 44_100, Some(-2300)).unwrap();
        assert_eq!(out, buf);

        let n = Normalizer::new(-1800, -100).unwrap();
        let limiter = Limiter::new(-100, 50, 5).unwrap();
        let out = run(
            n,
            DynamicsMode::Lookahead(limiter),
            &buf,
            1,
            44_100,
            Some(-2300),
        )
        .unwrap();
        assert_eq!(out, buf);
    }
}

#[test]
fn test_run_clamp_mode_holds_the_ceiling() {
    let buf: Vec<i64> = vec![SCALE * 9 / 10, -SCALE / 2, SCALE / 3];
    let n = Normalizer::new(-1500, -100).unwrap();
    // a measurement far below target forces a big boost; the clamp holds
    let out = run(n, DynamicsMode::Clamp, &buf, 1, 44_100, Some(-4500)).unwrap();
    assert!(max_peak(&out) <= db_to_linear(-100));
}

#[test]
fn test_run_lookahead_mode_holds_the_threshold() {
    let mut buf = vec![0i64; 10_000];
    buf[5_000] = SCALE / 2;
    buf[7_500] = -SCALE / 2;
    let n = Normalizer::new(-1500, -100).unwrap();
    let limiter = Limiter::new(-100, 50, 5).unwrap();
    // boost by many dB, then let the limiter hold the threshold
    let out = run(
        n,
        DynamicsMode::Lookahead(limiter),
        &buf,
        1,
        44_100,
        Some(-4500),
    )
    .unwrap();
    let threshold = db_to_linear(-100);
    for &y in &out {
        assert!(y.abs() <= threshold);
    }
}

#[test]
fn test_run_fails_without_a_measurement() {
    let buf: Vec<i64> = vec![1, 2, 3];
    let n = Normalizer::new(-1800, -100).unwrap();
    let r = run(n, DynamicsMode::Clamp, &buf, 1, 44_100, None);
    assert_eq!(r, Err(MeasurementError::InvalidLoudness));
}

#[test]
fn test_run_fails_on_unrepresentable_gain() {
    let buf: Vec<i64> = vec![1, 2, 3];
    let n = Normalizer::new(-1800, -100).unwrap();
    // measured so quiet the correction would exceed +80 dB
    let r = run(n, DynamicsMode::Clamp, &buf, 1, 44_100, Some(-30_000));
    assert_eq!(r, Err(MeasurementError::InvalidGain));
}

#[test]
fn test_pipeline_steps_through_its_states() {
    let buf: Vec<i64> = vec![SCALE / 4, -SCALE / 8];
    let n = Normalizer::new(-1800, -100).unwrap();
    let mut p = Pipeline::new(n, DynamicsMode::Clamp);
    p.record_measurement(Some(-2000)).unwrap();
    p.compute_gain().unwrap();
    let out = p.apply_dynamics(&buf, 1, 44_100).unwrap();
    assert_eq!(out.len(), buf.len());
}

#[test]
fn test_pipeline_aborts_on_missing_measurement() {
    let n = Normalizer::new(-1800, -100).unwrap();
    let mut p = Pipeline::new(n, DynamicsMode::Clamp);
    assert_eq!(
        p.record_measurement(None),
        Err(MeasurementError::InvalidLoudness)
    );
}

#[test]
fn test_pipeline_reports_the_applied_gain_in_db() {
    let n = Normalizer::new(-1800, -100).unwrap();
    let mut p = Pipeline::new(n, DynamicsMode::Clamp);
    assert_eq!(p.computed_gain_db(), None);
    p.record_measurement(Some(-2400)).unwrap();
    p.compute_gain().unwrap();
    // -18 target from -24 measured: a +6.00 dB correction
    assert_eq!(p.computed_gain_db(), Some(600));
}
