//! End-to-end loudness check against a real EBU R128 meter: normalizing a
//! sine wave lands its re-measured integrated loudness on the target.

use earpeace::dsp::SCALE;
use earpeace::normalizer::{apply_gain, calculate_gain_to_reach_target, Normalizer};
use earpeace::pipeline::{run, DynamicsMode};
use ebur128::{EbuR128, Mode};

fn sine_mono_f64(len: usize, rate: f64, freq: f64, amplitude: f64) -> Vec<f64> {
    let mut samples = Vec::with_capacity(len);
    for i in 0..len {
        let t = i as f64 / rate;
        samples.push(amplitude * (2.0 * std::f64::consts::PI * freq * t).sin());
    }
    samples
}

fn to_fixed(samples: &[f64]) -> Vec<i64> {
    samples
        .iter()
        .map(|&x| (x * SCALE as f64).round() as i64)
        .collect()
}

fn to_float(samples: &[i64]) -> Vec<f64> {
    samples.iter().map(|&x| x as f64 / SCALE as f64).collect()
}

fn measure_lufs(samples: &[f64], rate: u32) -> f64 {
    let mut meter = EbuR128::new(1, rate, Mode::I).unwrap();
    meter.add_frames_f64(samples).unwrap();
    meter.loudness_global().unwrap()
}

#[test]
fn test_sine_normalizes_to_within_a_tenth_of_target() {
    // a 1-second mono sine at 44,100 Hz, 80% of full scale
    let sine = sine_mono_f64(44_100, 44_100.0, 440.0, 0.8);
    let measured = measure_lufs(&sine, 44_100);
    assert!(measured.is_finite());

    // normalize to -14.00 LUFS under a -1 dBFS ceiling
    let target_lufs = -14.0;
    let buf = to_fixed(&sine);
    let measured_centidb = (measured * 100.0).round() as i64;
    let gain = calculate_gain_to_reach_target(measured_centidb, -1400).unwrap();
    let out = apply_gain(&buf, gain, -100);

    // the re-measured integrated loudness lands within 0.1 LUFS
    let final_loudness = measure_lufs(&to_float(&out), 44_100);
    assert!(
        (final_loudness - target_lufs).abs() < 0.1,
        "Expected loudness {:.1} LUFS, got {:.1} LUFS",
        target_lufs,
        final_loudness
    );
}

#[test]
fn test_sine_normalizes_through_the_pipeline_to_target() {
    let sine = sine_mono_f64(44_100, 44_100.0, 330.0, 0.5);
    let measured = measure_lufs(&sine, 44_100);
    let buf = to_fixed(&sine);
    let measured_centidb = (measured * 100.0).round() as i64;

    let normalizer = Normalizer::new(-1800, -100).unwrap();
    let out = run(
        normalizer,
        DynamicsMode::Clamp,
        &buf,
        1,
        44_100,
        Some(measured_centidb),
    )
    .unwrap();

    let final_loudness = measure_lufs(&to_float(&out), 44_100);
    assert!(
        (final_loudness - (-18.0)).abs() < 0.1,
        "Expected loudness -18.0 LUFS, got {:.1} LUFS",
        final_loudness
    );
}
