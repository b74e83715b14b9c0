//! Loudness normalization: gain calculation and the peak-ceiling clamp.
//!
//! The gain calculator turns a measured integrated loudness and a target
//! loudness into a linear corrective gain. The ceiling clamp caps a global
//! gain so that the buffer's scanned peak, after scaling, cannot exceed the
//! configured ceiling; a silent buffer keeps the unclamped gain, since
//! silence cannot clip.

use crate::dsp::{
    abs_val, clamp_db, db_to_linear_clamped, db_to_linear_spec, lemma_d2l_strict_step,
    lemma_l2d_unique, lemma_max_peak_le, lemma_scale_abs, lemma_scale_within_limit,
    linear_to_db_spec, max_peak, max_peak_spec, scale_buffer, scale_spec, valid_buffer, DB_MAX,
    DB_MIN, MAX_LINEAR, SCALE,
};
use crate::errors::{ConfigError, MeasurementError};
use vstd::prelude::*;

verus! {

/// The linear gain that moves a measured loudness to the target: the linear
/// value of their difference in hundredths of a dB, with differences below
/// the converter's domain clamped (their linear value is zero anyway).
pub open spec fn gain_spec(current_loudness: int, target_loudness: int) -> int {
    db_to_linear_spec(clamp_db(target_loudness - current_loudness))
}

/// A global gain capped by the peak ceiling: the gain is lowered exactly as
/// far as needed so a buffer with peak `peak` cannot exceed `limit`; a
/// silent buffer (`peak == 0`) keeps the unclamped gain.
pub open spec fn clamped_gain_spec(gain: int, peak: int, limit: int) -> int {
    if peak > 0 && limit * (SCALE as int) / peak < gain {
        limit * (SCALE as int) / peak
    } else {
        gain
    }
}

/// Compute the linear gain that brings `current_loudness` to
/// `target_loudness` (both in hundredths of a dB). Fails exactly when the
/// corrective gain would exceed the representable range.
pub fn calculate_gain_to_reach_target(current_loudness: i64, target_loudness: i64) -> (r: Result<
    i64,
    MeasurementError,
>)
    ensures
        r is Ok <==> target_loudness - current_loudness <= DB_MAX,
        r matches Ok(g) ==> g == gain_spec(current_loudness as int, target_loudness as int) && g
            >= 0,
        r is Err ==> r == Result::<i64, MeasurementError>::Err(MeasurementError::InvalidGain),
{
    let diff: i128 = target_loudness as i128 - current_loudness as i128;
    if diff > DB_MAX as i128 {
        return Err(MeasurementError::InvalidGain);
    }
    let clamped: i64 = if diff < DB_MIN as i128 {
        DB_MIN
    } else {
        diff as i64
    };
    Ok(db_to_linear_clamped(clamped))
}

/// Apply a gain to a buffer under a peak ceiling (in hundredths of a dBFS):
/// the gain is capped so the scaled peak stays at or below the ceiling's
/// linear amplitude — an exact guarantee, derived from the buffer's actual
/// maximum. A silent buffer keeps the unclamped gain.
pub fn apply_gain(samples: &Vec<i64>, gain: i64, target_peak: i64) -> (r: Vec<i64>)
    requires
        valid_buffer(samples@),
        gain >= 0,
        target_peak <= 0,
    ensures
        r@.len() == samples@.len(),
        forall|i: int|
            0 <= i < samples@.len() ==> #[trigger] r@[i] as int == scale_spec(
                samples@[i] as int,
                clamped_gain_spec(
                    gain as int,
                    max_peak_spec(samples@),
                    db_to_linear_spec(clamp_db(target_peak as int)),
                ),
            ),
        max_peak_spec(r@) <= db_to_linear_spec(clamp_db(target_peak as int)),
{
    let ghost limit_spec = db_to_linear_spec(clamp_db(target_peak as int));
    let limit = db_to_linear_clamped(target_peak);
    let p = max_peak(samples);
    let final_gain: i64 = if p > 0 {
        let max_gain: i64 = limit * SCALE / p;
        proof {
            vstd::arithmetic::div_mod::lemma_div_pos_is_pos(
                (limit as int) * (SCALE as int),
                p as int,
            );
        }
        if max_gain < gain {
            max_gain
        } else {
            gain
        }
    } else {
        gain
    };
    let out = scale_buffer(samples, final_gain);
    proof {
        assert(final_gain as int == clamped_gain_spec(gain as int, max_peak_spec(samples@), limit_spec));
        assert forall|i: int| 0 <= i < out@.len() implies abs_val(#[trigger] out@[i] as int)
            <= limit_spec by {
            let a = abs_val(samples@[i] as int);
            lemma_scale_abs(samples@[i] as int, final_gain as int);
            if p > 0 {
                lemma_scale_within_limit(a, final_gain as int, p as int, limit_spec);
            } else {
                assert(a == 0);
                assert(a * (final_gain as int) == 0) by (nonlinear_arith)
                    requires
                        a == 0,
                ;
            }
        }
        lemma_max_peak_le(out@, limit_spec);
    }
    out
}

/// A loudness normalizer: target integrated loudness (hundredths of a LUFS)
/// and peak ceiling (hundredths of a dBFS).
#[derive(Debug, PartialEq, Eq, Structural)]
pub struct Normalizer {
    /// Target integrated loudness in hundredths of a LUFS; strictly
    /// negative and no louder than `MAX_TARGET_LOUDNESS`.
    pub target_loudness: i64,
    /// Peak ceiling in hundredths of a dBFS; strictly negative and no
    /// higher than `MAX_TARGET_PEAK`.
    pub target_peak: i64,
}

impl Normalizer {
    /// Maximum allowed target loudness (-15 LUFS), hardcoded to prevent
    /// hearing damage.
    pub const MAX_TARGET_LOUDNESS: i64 = -1500;

    /// Maximum allowed peak ceiling (-0.1 dBFS), hardcoded to prevent
    /// clipping.
    pub const MAX_TARGET_PEAK: i64 = -10;

    /// Default target loudness: -18 LUFS.
    pub const DEFAULT_TARGET_LOUDNESS: i64 = -1800;

    /// Default peak ceiling: -1 dBFS.
    pub const DEFAULT_TARGET_PEAK: i64 = -100;

    /// A well-formed normalizer configuration.
    pub open spec fn valid(&self) -> bool {
        &&& self.target_loudness < 0
        &&& self.target_loudness <= Normalizer::MAX_TARGET_LOUDNESS
        &&& self.target_peak < 0
        &&& self.target_peak <= Normalizer::MAX_TARGET_PEAK
    }

    /// Validate and construct a normalizer. Construction succeeds exactly
    /// when both values are strictly negative and within their maxima;
    /// each rejection names the offending parameter.
    pub fn new(target_loudness: i64, target_peak: i64) -> (r: Result<Normalizer, ConfigError>)
        ensures
            r is Ok <==> (target_loudness < 0 && target_loudness
                <= Normalizer::MAX_TARGET_LOUDNESS && target_peak < 0 && target_peak
                <= Normalizer::MAX_TARGET_PEAK),
            r matches Ok(n) ==> n == (Normalizer { target_loudness, target_peak }) && n.valid(),
            target_loudness >= 0 ==> r == Result::<Normalizer, ConfigError>::Err(
                ConfigError::TargetLoudnessNotNegative,
            ),
            target_loudness < 0 && target_peak >= 0 ==> r == Result::<Normalizer, ConfigError>::Err(
                ConfigError::PeakCeilingNotNegative,
            ),
            target_loudness < 0 && target_peak < 0 && target_loudness
                > Normalizer::MAX_TARGET_LOUDNESS ==> r == Result::<Normalizer, ConfigError>::Err(
                ConfigError::TargetLoudnessAboveMax,
            ),
            target_loudness <= Normalizer::MAX_TARGET_LOUDNESS && target_peak < 0 && target_peak
                > Normalizer::MAX_TARGET_PEAK ==> r == Result::<Normalizer, ConfigError>::Err(
                ConfigError::PeakCeilingAboveMax,
            ),
    {
        if target_loudness >= 0 {
            return Err(ConfigError::TargetLoudnessNotNegative);
        }
        if target_peak >= 0 {
            return Err(ConfigError::PeakCeilingNotNegative);
        }
        if target_loudness > Normalizer::MAX_TARGET_LOUDNESS {
            return Err(ConfigError::TargetLoudnessAboveMax);
        }
        if target_peak > Normalizer::MAX_TARGET_PEAK {
            return Err(ConfigError::PeakCeilingAboveMax);
        }
        Ok(Normalizer { target_loudness, target_peak })
    }

    /// Normalize one buffer: compute the corrective gain from the measured
    /// loudness (hundredths of a LUFS, `None` where the meter produced no
    /// finite value) and apply it under the peak ceiling. Fails exactly on
    /// a missing measurement or an unrepresentable gain; the channel count
    /// and sample rate tag the buffer but play no part in the arithmetic.
    pub fn process(
        &self,
        _channels: usize,
        _sample_rate: u32,
        samples: &Vec<i64>,
        measured_loudness: Option<i64>,
    ) -> (r: Result<Vec<i64>, MeasurementError>)
        requires
            self.valid(),
            valid_buffer(samples@),
        ensures
            r is Ok <==> (measured_loudness matches Some(m) && self.target_loudness - m <= DB_MAX),
            measured_loudness is None ==> r == Result::<Vec<i64>, MeasurementError>::Err(
                MeasurementError::InvalidLoudness,
            ),
            measured_loudness matches Some(m) && self.target_loudness - m > DB_MAX ==> r
                == Result::<Vec<i64>, MeasurementError>::Err(MeasurementError::InvalidGain),
            r matches Ok(out) ==> (measured_loudness matches Some(m) ==> {
                let g = gain_spec(m as int, self.target_loudness as int);
                let limit = db_to_linear_spec(clamp_db(self.target_peak as int));
                &&& out@.len() == samples@.len()
                &&& forall|i: int|
                    0 <= i < samples@.len() ==> #[trigger] out@[i] as int == scale_spec(
                        samples@[i] as int,
                        clamped_gain_spec(g, max_peak_spec(samples@), limit),
                    )
                &&& max_peak_spec(out@) <= limit
            }),
    {
        let m = match measured_loudness {
            Some(m) => m,
            None => {
                return Err(MeasurementError::InvalidLoudness);
            },
        };
        let gain = match calculate_gain_to_reach_target(m, self.target_loudness) {
            Ok(g) => g,
            Err(e) => {
                return Err(e);
            },
        };
        Ok(apply_gain(samples, gain, self.target_peak))
    }
}

impl Default for Normalizer {
    /// The default normalizer: -18 LUFS target, -1 dBFS ceiling.
    fn default() -> (r: Normalizer)
        ensures
            r.target_loudness == Normalizer::DEFAULT_TARGET_LOUDNESS,
            r.target_peak == Normalizer::DEFAULT_TARGET_PEAK,
            r.valid(),
    {
        Normalizer {
            target_loudness: Normalizer::DEFAULT_TARGET_LOUDNESS,
            target_peak: Normalizer::DEFAULT_TARGET_PEAK,
        }
    }
}

/// Gain calculator round trip: converting the computed corrective gain back
/// to the decibel scale recovers exactly the difference between target and
/// measured loudness. This holds wherever the fixed-point conversion is
/// injective: the gain's linear value is positive and clear of the
/// saturation bound (differences below roughly -126 dB quantize to linear
/// values too small to distinguish).
pub proof fn lemma_gain_round_trip(measured: int, target: int)
    requires
        DB_MIN <= target - measured <= DB_MAX,
        1 <= db_to_linear_spec(target - measured),
        2 * db_to_linear_spec(target - measured) <= MAX_LINEAR,
    ensures
        linear_to_db_spec(gain_spec(measured, target)) == target - measured,
{
    let d = target - measured;
    assert(clamp_db(d) == d);
    if d < DB_MAX {
        lemma_d2l_strict_step(d);
    }
    lemma_l2d_unique(db_to_linear_spec(d), d);
}

/// A processor that hands every buffer back unchanged.
pub struct FakeProcessor;

impl crate::dsp::AudioProcessor for FakeProcessor {
    /// Every buffer is well formed for the identity processor.
    open spec fn wf(&self) -> bool {
        true
    }

    /// Return a copy of the input buffer.
    fn process(&self, samples: &Vec<i64>, _channels: usize, _sample_rate: u32) -> (r: Result<
        Vec<i64>,
        MeasurementError,
    >) {
        let n = samples.len();
        let mut out: Vec<i64> = Vec::new();
        let mut i: usize = 0;
        while i < n
            invariant
                0 <= i <= n,
                n == samples@.len(),
                out@.len() == i,
                forall|j: int| 0 <= j < i ==> #[trigger] out@[j] == samples@[j],
            decreases n - i,
        {
            out.push(samples[i]);
            i = i + 1;
        }
        Ok(out)
    }
}

} // verus!
