//! The lookahead limiter: ceiling guarantee, true lookahead, and release
//! behavior on concrete buffers.

use earpeace::dsp::{db_to_linear, AudioProcessor, SCALE};
use earpeace::limiter::Limiter;
use earpeace::normalizer::FakeProcessor;

fn spike_buffer(len: usize, spike_at: usize, amplitude: i64) -> Vec<i64> {
    let mut buf = vec![0i64; len];
    buf[spike_at] = amplitude;
    buf
}

#[test]
fn test_limiter_output_never_exceeds_threshold() {
    let limiter = Limiter::new(-100, 50, 5).unwrap();
    let threshold_linear = db_to_linear(-100);
    // a buffer that swings well past the threshold in both directions
    let mut buf: Vec<i64> = Vec::new();
    let mut x: i64 = -SCALE;
    while x <= SCALE {
        buf.push(x);
        x += SCALE / 37;
    }
    buf.push(SCALE);
    buf.push(-SCALE);
    let out = limiter.process(&buf, 1, 44_100).unwrap();
    assert_eq!(out.len(), buf.len());
    for (i, &y) in out.iter().enumerate() {
        assert!(
            y.abs() <= threshold_linear,
            "sample {} exceeds the threshold: {}",
            i,
            y
        );
    }
}

#[test]
fn test_limiter_passes_quiet_audio_unchanged() {
    let limiter = Limiter::new(-100, 50, 5).unwrap();
    // everything far below the threshold: unity envelope throughout
    let buf: Vec<i64> = vec![1_000_000, -2_000_000, 500_000, 0, -1];
    let out = limiter.process(&buf, 1, 48_000).unwrap();
    assert_eq!(out, buf);
}

#[test]
fn test_gain_envelope_drops_before_the_spike() {
    // A single full-scale spike inside an otherwise silent 48000-sample
    // buffer, threshold -1 dBFS, 5 ms lookahead, 50 ms release: the
    // envelope must fall below unity strictly before the spike's index.
    let limiter = Limiter::new(-100, 50, 5).unwrap();
    let spike_at = 24_000usize;
    let buf = spike_buffer(48_000, spike_at, SCALE);
    let env = limiter.gain_envelope(&buf, 48_000);
    // 5 ms at 48 kHz is 240 samples of lookahead
    let lookahead_samples = 240usize;
    // before the window: unity
    assert_eq!(env[spike_at - lookahead_samples], SCALE);
    // inside the window, strictly before the spike: already reduced
    assert!(
        env[spike_at - 1] < SCALE,
        "the envelope must begin to drop strictly before the spike"
    );
    assert!(env[spike_at - lookahead_samples + 1] < SCALE);
    // at the spike: reduced enough to hold the ceiling
    let out = limiter.process(&buf, 1, 48_000).unwrap();
    assert!(out[spike_at].abs() <= db_to_linear(-100));
}

#[test]
fn test_release_recovers_monotonically_after_a_transient() {
    let limiter = Limiter::new(-100, 50, 5).unwrap();
    let spike_at = 1_000usize;
    let buf = spike_buffer(10_000, spike_at, SCALE);
    let env = limiter.gain_envelope(&buf, 44_100);
    // after the spike the envelope rises strictly toward unity until it
    // reaches it, and never falls again (no new overshoot intervenes)
    let mut i = spike_at + 1;
    let mut reached_unity = false;
    while i < env.len() {
        if reached_unity {
            assert_eq!(env[i], SCALE, "the envelope must stay at unity once reached");
        } else if env[i] == SCALE {
            reached_unity = true;
        } else {
            assert!(
                env[i] > env[i - 1],
                "the envelope must rise strictly toward unity at index {}",
                i
            );
        }
        i += 1;
    }
}

#[test]
fn test_limiter_on_all_zero_buffer() {
    let limiter = Limiter::new(-100, 50, 5).unwrap();
    let buf = vec![0i64; 4_410];
    let out = limiter.process(&buf, 1, 44_100).unwrap();
    assert_eq!(out, buf);
}

#[test]
fn test_limiter_total_on_degenerate_rates() {
    // a zero sample rate degenerates to a one-sample lookahead and an
    // instant release; processing still holds the threshold and returns
    let limiter = Limiter::new(-100, 50, 5).unwrap();
    let buf: Vec<i64> = vec![SCALE, -SCALE, SCALE / 2];
    let out = limiter.process(&buf, 1, 0).unwrap();
    let threshold = db_to_linear(-100);
    for &y in &out {
        assert!(y.abs() <= threshold);
    }
}

#[test]
fn test_limiter_as_audio_processor() {
    let limiter = Limiter::new(-100, 50, 5).unwrap();
    let processor: &dyn AudioProcessor = &limiter;
    let buf: Vec<i64> = vec![SCALE, 0, -SCALE];
    let out = processor.process(&buf, 1, 44_100).unwrap();
    assert_eq!(out.len(), buf.len());
}

#[test]
fn test_fake_processor_returns_the_buffer_unchanged() {
    let buf: Vec<i64> = vec![5, -7, 9];
    let out = FakeProcessor.process(&buf, 2, 48_000).unwrap();
    assert_eq!(out, buf);
}
