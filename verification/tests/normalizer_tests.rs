//! The gain calculator and the ceiling clamp on concrete buffers.

use earpeace::dsp::{db_to_linear, linear_to_db, max_peak, SCALE};
use earpeace::errors::MeasurementError;
use earpeace::normalizer::{apply_gain, calculate_gain_to_reach_target, Normalizer};

#[test]
fn test_gain_calculation_round_trip() {
    // measured -20.00 LUFS, target -14.00 LUFS: a +6.00 dB correction
    let gain = calculate_gain_to_reach_target(-2000, -1400).unwrap();
    assert_eq!(linear_to_db(gain), 600);
    assert_eq!(gain, db_to_linear(600));

    // measured -10.00 LUFS, target -18.00 LUFS: an -8.00 dB correction
    let gain = calculate_gain_to_reach_target(-1000, -1800).unwrap();
    assert_eq!(linear_to_db(gain), -800);

    // no correction needed: unity gain
    let gain = calculate_gain_to_reach_target(-1800, -1800).unwrap();
    assert_eq!(gain, SCALE);
}

#[test]
fn test_gain_calculation_rejects_unrepresentable_gain() {
    // a correction beyond +80 dB cannot be represented
    let r = calculate_gain_to_reach_target(-10_000, -1500);
    assert_eq!(r, Err(MeasurementError::InvalidGain));
    assert!(MeasurementError::InvalidGain
        .message()
        .contains("Invalid gain value calculated"));
}

#[test]
fn test_apply_gain_holds_the_peak_ceiling() {
    // a loud buffer boosted hard: the clamp must hold the -1 dBFS ceiling
    let buf: Vec<i64> = vec![SCALE / 2, -SCALE * 4 / 5, SCALE / 4, -SCALE / 10];
    let boost = db_to_linear(1200); // +12 dB, far past the ceiling
    let out = apply_gain(&buf, boost, -100);
    assert_eq!(out.len(), buf.len());
    let ceiling = db_to_linear(-100);
    assert!(max_peak(&out) <= ceiling);
    // and the clamp is exact: the loudest sample lands at the ceiling
    assert!(max_peak(&out) >= ceiling - 4);
}

#[test]
fn test_apply_gain_leaves_room_when_gain_is_small() {
    // a quiet buffer with a modest boost: no clamping, plain scaling
    let buf: Vec<i64> = vec![SCALE / 100, -SCALE / 200];
    let gain = db_to_linear(600); // x2 roughly
    let out = apply_gain(&buf, gain, -100);
    // samples scale by ~2: check the first one within quantization
    let expected = (buf[0] as i128 * gain as i128 / SCALE as i128) as i64;
    assert_eq!(out[0], expected);
}

#[test]
fn test_apply_gain_on_silence_falls_back_to_unclamped_gain() {
    // a silent buffer cannot clip: no DegenerateSignal error, zeros out
    let buf = vec![0i64; 1000];
    let out = apply_gain(&buf, db_to_linear(4000), -100);
    assert_eq!(out, buf);
}

#[test]
fn test_process_requires_a_measurement() {
    let n = Normalizer::new(-1800, -100).unwrap();
    let buf: Vec<i64> = vec![SCALE / 2, -SCALE / 3];
    let r = n.process(1, 44_100, &buf, None);
    assert_eq!(r, Err(MeasurementError::InvalidLoudness));
    assert!(MeasurementError::InvalidLoudness
        .message()
        .contains("Invalid loudness value calculated"));

    let r = n.process(1, 44_100, &buf, Some(-2400));
    assert!(r.is_ok());
    assert_eq!(r.unwrap().len(), buf.len());
}
