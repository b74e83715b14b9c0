//! Pipeline orchestrator: measurement, gain calculation, then one dynamics
//! stage — the ceiling clamp or the lookahead limiter — selected by
//! configuration. The state machine is strictly linear: `Configured`,
//! `Measured`, `GainComputed`, `Done`, with no branching back. A missing
//! (non-finite) loudness value or an unrepresentable gain aborts the item;
//! both dynamics stages are interchangeable terminal stages that preserve
//! the buffer's length.

use crate::dsp::{
    abs_val, clamp_db, db_to_linear_spec, linear_to_db, linear_to_db_spec, max_peak_spec,
    scale_buffer, scale_spec, scaled_seq, valid_buffer, DB_MAX,
};
use crate::errors::MeasurementError;
use crate::limiter::{env_at, lookahead_samples_spec, release_coeff_spec, Limiter};
use crate::normalizer::{
    apply_gain, calculate_gain_to_reach_target, clamped_gain_spec, gain_spec, Normalizer,
};
use vstd::prelude::*;

verus! {

/// The dynamics stage a pipeline ends with.
pub enum DynamicsMode {
    /// Cap the global gain so the scanned peak cannot exceed the ceiling.
    Clamp,
    /// Apply the gain unclamped, then run the lookahead limiter over the
    /// scaled buffer.
    Lookahead(Limiter),
}

impl DynamicsMode {
    /// A well-formed dynamics selection.
    pub open spec fn valid(&self) -> bool {
        match self {
            DynamicsMode::Clamp => true,
            DynamicsMode::Lookahead(l) => l.valid(),
        }
    }
}

/// Where a pipeline stands; the progression is strictly linear.
pub enum PipelineState {
    /// Configured, awaiting the loudness measurement.
    Configured,
    /// Holding the measured integrated loudness (hundredths of a LUFS).
    Measured(i64),
    /// Holding the linear corrective gain.
    GainComputed(i64),
    /// The dynamics stage has run; the pipeline is finished.
    Done,
}

/// One normalization pipeline over one buffer.
pub struct Pipeline {
    /// The validated normalizer configuration.
    pub normalizer: Normalizer,
    /// The dynamics stage to finish with.
    pub mode: DynamicsMode,
    /// The pipeline's current state.
    pub state: PipelineState,
}

impl Pipeline {
    /// A well-formed pipeline.
    pub open spec fn wf(&self) -> bool {
        self.normalizer.valid() && self.mode.valid()
    }

    /// Start a pipeline for one buffer.
    pub fn new(normalizer: Normalizer, mode: DynamicsMode) -> (r: Pipeline)
        requires
            normalizer.valid(),
            mode.valid(),
        ensures
            r.normalizer == normalizer,
            r.mode == mode,
            r.state is Configured,
            r.wf(),
    {
        Pipeline { normalizer, mode, state: PipelineState::Configured }
    }

    /// Record the meter's result. `None` stands for a non-finite
    /// measurement and aborts the pipeline; a value moves it to `Measured`.
    pub fn record_measurement(&mut self, measured_loudness: Option<i64>) -> (r: Result<
        (),
        MeasurementError,
    >)
        requires
            old(self).wf(),
            old(self).state is Configured,
        ensures
            final(self).normalizer == old(self).normalizer,
            final(self).mode == old(self).mode,
            final(self).wf(),
            r is Ok <==> measured_loudness is Some,
            measured_loudness matches Some(m) ==> final(self).state == PipelineState::Measured(m),
            measured_loudness is None ==> r == Result::<(), MeasurementError>::Err(
                MeasurementError::InvalidLoudness,
            ) && final(self).state is Configured,
    {
        match measured_loudness {
            Some(m) => {
                self.state = PipelineState::Measured(m);
                Ok(())
            },
            None => Err(MeasurementError::InvalidLoudness),
        }
    }

    /// Turn the measured loudness into the linear corrective gain. Fails,
    /// aborting the pipeline, exactly when the gain is unrepresentable.
    pub fn compute_gain(&mut self) -> (r: Result<(), MeasurementError>)
        requires
            old(self).wf(),
            old(self).state is Measured,
        ensures
            final(self).normalizer == old(self).normalizer,
            final(self).mode == old(self).mode,
            final(self).wf(),
            old(self).state matches PipelineState::Measured(m) ==> {
                &&& (r is Ok <==> old(self).normalizer.target_loudness - m <= DB_MAX)
                &&& (r is Ok ==> final(self).state == PipelineState::GainComputed(
                    gain_spec(m as int, old(self).normalizer.target_loudness as int) as i64,
                ))
                &&& (r is Err ==> r == Result::<(), MeasurementError>::Err(
                    MeasurementError::InvalidGain,
                ) && final(self).state == old(self).state)
            },
    {
        let m = match self.state {
            PipelineState::Measured(m) => m,
            _ => {
                proof {
                    assert(false);
                }
                0
            },
        };
        match calculate_gain_to_reach_target(m, self.normalizer.target_loudness) {
            Ok(g) => {
                self.state = PipelineState::GainComputed(g);
                Ok(())
            },
            Err(e) => Err(e),
        }
    }

    /// The corrective gain the pipeline computed, reported on the decibel
    /// scale (hundredths of a dB), for surfacing to a caller; `None` before
    /// the gain has been computed.
    pub fn computed_gain_db(&self) -> (r: Option<i64>)
        ensures
            r matches Some(db) ==> (self.state matches PipelineState::GainComputed(g) && db
                == linear_to_db_spec(g as int)),
            r is None <==> !(self.state matches PipelineState::GainComputed(g) && g >= 0),
    {
        match self.state {
            PipelineState::GainComputed(g) => {
                if g >= 0 {
                    Some(linear_to_db(g))
                } else {
                    None
                }
            },
            _ => None,
        }
    }

    /// Run the selected dynamics stage over a buffer with the computed
    /// gain; this finishes the pipeline and never fails. In clamp mode the
    /// output's peak stays at or below the ceiling; in lookahead mode no
    /// output sample exceeds the limiter's threshold.
    pub fn apply_dynamics(&mut self, samples: &Vec<i64>, channels: usize, sample_rate: u32) -> (r:
        Result<Vec<i64>, MeasurementError>)
        requires
            old(self).wf(),
            old(self).state matches PipelineState::GainComputed(g) && g >= 0,
            valid_buffer(samples@),
        ensures
            final(self).normalizer == old(self).normalizer,
            final(self).mode == old(self).mode,
            final(self).state is Done,
            r is Ok,
            r matches Ok(out) ==> out@.len() == samples@.len(),
            r matches Ok(out) ==> (old(self).state matches PipelineState::GainComputed(g) ==> {
                let limit = db_to_linear_spec(clamp_db(old(self).normalizer.target_peak as int));
                &&& (old(self).mode is Clamp ==> {
                    &&& forall|i: int|
                        0 <= i < samples@.len() ==> #[trigger] out@[i] as int == scale_spec(
                            samples@[i] as int,
                            clamped_gain_spec(g as int, max_peak_spec(samples@), limit),
                        )
                    &&& max_peak_spec(out@) <= limit
                })
                &&& (old(self).mode matches DynamicsMode::Lookahead(l) ==> {
                    let scaled = scaled_seq(samples@, g as int);
                    let thr = l.threshold_linear();
                    let la = lookahead_samples_spec(
                        l.lookahead as int,
                        sample_rate as int,
                        samples@.len() as int,
                    );
                    let coeff = release_coeff_spec(l.release_time as int, sample_rate as int);
                    &&& forall|i: int|
                        0 <= i < samples@.len() ==> #[trigger] out@[i] as int == scale_spec(
                            scaled[i] as int,
                            env_at(scaled, thr, la, coeff, i),
                        )
                    &&& forall|i: int|
                        0 <= i < samples@.len() ==> abs_val(#[trigger] out@[i] as int)
                            <= l.threshold_linear()
                })
            }),
    {
        let g = match self.state {
            PipelineState::GainComputed(g) => g,
            _ => {
                proof {
                    assert(false);
                }
                0
            },
        };
        let out: Result<Vec<i64>, MeasurementError> = match &self.mode {
            DynamicsMode::Clamp => Ok(apply_gain(samples, g, self.normalizer.target_peak)),
            DynamicsMode::Lookahead(l) => {
                let scaled = scale_buffer(samples, g);
                proof {
                    assert forall|i: int| 0 <= i < scaled@.len() implies #[trigger] scaled@[i]
                        > i64::MIN by {
                        assert(abs_val(scaled@[i] as int) <= g);
                    }
                    assert(scaled@ =~= scaled_seq(samples@, g as int));
                }
                l.process(&scaled, channels, sample_rate)
            },
        };
        self.state = PipelineState::Done;
        out
    }
}

/// Normalize one buffer end to end: record the measurement, compute the
/// gain, run the selected dynamics stage. Fails exactly on a missing
/// measurement or an unrepresentable gain; errors on one buffer leave
/// every other buffer untouched, since a pipeline owns nothing shared.
pub fn run(
    normalizer: Normalizer,
    mode: DynamicsMode,
    samples: &Vec<i64>,
    channels: usize,
    sample_rate: u32,
    measured_loudness: Option<i64>,
) -> (r: Result<Vec<i64>, MeasurementError>)
    requires
        normalizer.valid(),
        mode.valid(),
        valid_buffer(samples@),
    ensures
        r is Ok <==> (measured_loudness matches Some(m) && normalizer.target_loudness - m
            <= DB_MAX),
        measured_loudness is None ==> r == Result::<Vec<i64>, MeasurementError>::Err(
            MeasurementError::InvalidLoudness,
        ),
        measured_loudness matches Some(m) && normalizer.target_loudness - m > DB_MAX ==> r
            == Result::<Vec<i64>, MeasurementError>::Err(MeasurementError::InvalidGain),
        r matches Ok(out) ==> out@.len() == samples@.len(),
        r matches Ok(out) ==> (measured_loudness matches Some(m) ==> {
            let g = gain_spec(m as int, normalizer.target_loudness as int);
            let limit = db_to_linear_spec(clamp_db(normalizer.target_peak as int));
            &&& (mode is Clamp ==> {
                &&& forall|i: int|
                    0 <= i < samples@.len() ==> #[trigger] out@[i] as int == scale_spec(
                        samples@[i] as int,
                        clamped_gain_spec(g, max_peak_spec(samples@), limit),
                    )
                &&& max_peak_spec(out@) <= limit
            })
            &&& (mode matches DynamicsMode::Lookahead(l) ==> {
                let scaled = scaled_seq(samples@, g);
                let thr = l.threshold_linear();
                let la = lookahead_samples_spec(
                    l.lookahead as int,
                    sample_rate as int,
                    samples@.len() as int,
                );
                let coeff = release_coeff_spec(l.release_time as int, sample_rate as int);
                &&& forall|i: int|
                    0 <= i < samples@.len() ==> #[trigger] out@[i] as int == scale_spec(
                        scaled[i] as int,
                        env_at(scaled, thr, la, coeff, i),
                    )
                &&& forall|i: int|
                    0 <= i < samples@.len() ==> abs_val(#[trigger] out@[i] as int)
                        <= l.threshold_linear()
            })
        }),
{
    let ghost target = normalizer.target_loudness as int;
    let mut pipeline = Pipeline::new(normalizer, mode);
    match pipeline.record_measurement(measured_loudness) {
        Ok(()) => (),
        Err(e) => {
            return Err(e);
        },
    }
    match pipeline.compute_gain() {
        Ok(()) => (),
        Err(e) => {
            return Err(e);
        },
    }
    proof {
        match measured_loudness {
            Some(m) => {
                crate::dsp::lemma_d2l_bounds(clamp_db(target - m as int));
            },
            None => {},
        }
    }
    pipeline.apply_dynamics(samples, channels, sample_rate)
}

/// An all-zero buffer stays all-zero under the ceiling clamp, whatever the
/// gain: silence is scaled to silence, with no error and no division by the
/// zero peak.
pub proof fn lemma_zero_buffer_clamps_to_zero(s: Seq<i64>, gain: int, limit: int)
    requires
        forall|i: int| 0 <= i < s.len() ==> #[trigger] s[i] == 0,
        gain >= 0,
    ensures
        forall|i: int|
            0 <= i < s.len() ==> scale_spec(
                #[trigger] s[i] as int,
                clamped_gain_spec(gain, max_peak_spec(s), limit),
            ) == 0,
{
    let fg = clamped_gain_spec(gain, max_peak_spec(s), limit);
    assert forall|i: int| 0 <= i < s.len() implies scale_spec(#[trigger] s[i] as int, fg) == 0 by {
        assert(0 * fg == 0) by (nonlinear_arith);
    }
}

/// An all-zero buffer passes through the lookahead limiter unchanged: a
/// zero sample scaled by any envelope gain is zero.
pub proof fn lemma_zero_buffer_limits_to_zero(s: Seq<i64>, env_gain: int)
    requires
        forall|i: int| 0 <= i < s.len() ==> #[trigger] s[i] == 0,
    ensures
        forall|i: int| 0 <= i < s.len() ==> scale_spec(#[trigger] s[i] as int, env_gain) == 0,
{
    assert forall|i: int| 0 <= i < s.len() implies scale_spec(#[trigger] s[i] as int, env_gain)
        == 0 by {
        assert(0 * env_gain == 0) by (nonlinear_arith);
    }
}

} // verus!
