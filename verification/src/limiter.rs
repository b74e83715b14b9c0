//! Lookahead limiter: a stateful, two-pass sample processor.
//!
//! The first pass computes, for every index, the most severe gain reduction
//! demanded by any sample in the lookahead window starting there, so
//! attenuation begins before a transient arrives. The second pass smooths
//! that schedule: reductions snap down instantly, recovery toward unity is
//! gradual, one release-coefficient step per sample. The per-sample gains
//! never let an output sample exceed the configured threshold.

use crate::dsp::{
    abs_val, clamp_db, db_to_linear_clamped, db_to_linear_spec, lemma_div_strict_bound,
    lemma_mul_le, lemma_scale_abs, lemma_scale_shrinks, lemma_scale_within_limit,
    representable_buffer, scale_sample, scale_spec, SCALE,
};
use crate::errors::{ConfigError, MeasurementError};
use vstd::arithmetic::div_mod::{
    lemma_div_is_ordered, lemma_div_multiples_vanish, lemma_div_pos_is_pos,
    lemma_fundamental_div_mod_converse,
};
use vstd::prelude::*;

verus! {

/// The gain reduction a single sample demands: `threshold / |x|` for a
/// sample above the threshold, unity otherwise.
pub open spec fn required_reduction(x: int, thr: int) -> int {
    if abs_val(x) > thr {
        thr * (SCALE as int) / abs_val(x)
    } else {
        SCALE as int
    }
}

/// The most severe reduction demanded by any sample in `[from, to)`; unity
/// for an empty window.
pub open spec fn window_min(s: Seq<i64>, thr: int, from: int, to: int) -> int
    decreases to - from,
{
    if from >= to {
        SCALE as int
    } else {
        let rest = window_min(s, thr, from + 1, to);
        let r = required_reduction(s[from] as int, thr);
        if r < rest {
            r
        } else {
            rest
        }
    }
}

/// The reduction scheduled at index `j`: the most severe reduction demanded
/// in the lookahead window of `la` samples starting at `j`, so a transient
/// up to `la - 1` samples ahead already lowers the gain here.
pub open spec fn sched_at(s: Seq<i64>, thr: int, la: int, j: int) -> int {
    window_min(s, thr, j, if j + la > s.len() { s.len() as int } else { j + la })
}

/// The whole reduction schedule of a buffer.
pub open spec fn schedule_seq(s: Seq<i64>, thr: int, la: int) -> Seq<i64> {
    Seq::new(s.len(), |j: int| sched_at(s, thr, la, j) as i64)
}

/// One smoothing step: snap down to a more severe target at once, else
/// relax from `cur` toward the target by the release coefficient.
pub open spec fn smooth_step(cur: int, target: int, coeff: int) -> int {
    if target < cur {
        target
    } else {
        target - (target - cur) * coeff / (SCALE as int)
    }
}

/// The smoothed gain envelope at index `i`, starting from unity before the
/// first sample.
pub open spec fn env_from(sched: Seq<i64>, coeff: int, i: int) -> int
    decreases i,
{
    if i <= 0 {
        smooth_step(SCALE as int, sched[0] as int, coeff)
    } else {
        smooth_step(env_from(sched, coeff, i - 1), sched[i] as int, coeff)
    }
}

/// The gain envelope the limiter applies at index `i` of a buffer.
pub open spec fn env_at(s: Seq<i64>, thr: int, la: int, coeff: int, i: int) -> int {
    env_from(schedule_seq(s, thr, la), coeff, i)
}

/// The lookahead horizon in samples: the configured milliseconds at the
/// given rate, capped to the buffer length and never less than one sample,
/// so the sample that overshoots is itself always inside its window.
pub open spec fn lookahead_samples_spec(lookahead_ms: int, sample_rate: int, len: int) -> int {
    let raw = lookahead_ms * sample_rate / 1000;
    let capped = if raw > len {
        len
    } else {
        raw
    };
    if capped < 1 {
        1
    } else {
        capped
    }
}

/// The release coefficient `n / (n + 1)` in fixed point, where `n` is the
/// release time in samples (capped at `SCALE`, beyond which the coefficient
/// no longer changes).
pub open spec fn release_coeff_spec(release_time: int, sample_rate: int) -> int {
    let raw = release_time * sample_rate / 1000;
    let n = if raw > SCALE {
        SCALE as int
    } else {
        raw
    };
    n * (SCALE as int) / (n + 1)
}

/// The lookahead horizon is always at least one sample, so the sample that
/// overshoots is inside its own window.
pub proof fn lemma_lookahead_samples_bounds(lookahead_ms: int, sample_rate: int, len: int)
    requires
        lookahead_ms >= 0,
        sample_rate >= 0,
    ensures
        1 <= lookahead_samples_spec(lookahead_ms, sample_rate, len),
{
    assert(lookahead_ms * sample_rate >= 0) by (nonlinear_arith)
        requires
            lookahead_ms >= 0,
            sample_rate >= 0,
    ;
}

/// The release coefficient lies strictly below unity.
pub proof fn lemma_release_coeff_bounds(release_time: int, sample_rate: int)
    requires
        release_time >= 0,
        sample_rate >= 0,
    ensures
        0 <= release_coeff_spec(release_time, sample_rate) < SCALE,
{
    assert(release_time * sample_rate >= 0) by (nonlinear_arith)
        requires
            release_time >= 0,
            sample_rate >= 0,
    ;
    let raw = release_time * sample_rate / 1000;
    let n = if raw > SCALE {
        SCALE as int
    } else {
        raw
    };
    lemma_div_pos_is_pos(n * (SCALE as int), n + 1);
    assert(n * (SCALE as int) < (SCALE as int) * (n + 1)) by (nonlinear_arith)
        requires
            n >= 0,
    ;
    lemma_div_strict_bound(n * (SCALE as int), n + 1, SCALE as int);
}

/// A single sample's demanded reduction lies between silence and unity.
pub proof fn lemma_required_reduction_bounds(x: int, thr: int)
    requires
        0 <= thr <= SCALE,
    ensures
        0 <= required_reduction(x, thr) <= SCALE,
{
    let a = abs_val(x);
    if a > thr {
        lemma_div_pos_is_pos(thr * (SCALE as int), a);
        lemma_mul_le(thr, a, SCALE as int);
        assert(thr * (SCALE as int) <= a * (SCALE as int));
        lemma_div_is_ordered(thr * (SCALE as int), a * (SCALE as int), a);
        lemma_div_multiples_vanish(SCALE as int, a);
        assert(a * (SCALE as int) == (SCALE as int) * a) by (nonlinear_arith);
        assert((a * (SCALE as int)) / a == SCALE);
    }
}

/// A window's scheduled reduction lies between silence and unity.
pub proof fn lemma_window_min_bounds(s: Seq<i64>, thr: int, from: int, to: int)
    requires
        0 <= thr <= SCALE,
    ensures
        0 <= window_min(s, thr, from, to) <= SCALE,
    decreases to - from,
{
    if from < to {
        lemma_window_min_bounds(s, thr, from + 1, to);
        lemma_required_reduction_bounds(s[from] as int, thr);
    }
}

/// Extending a window by one sample takes the minimum with that sample's
/// demanded reduction.
pub proof fn lemma_window_min_snoc(s: Seq<i64>, thr: int, from: int, to: int)
    requires
        from <= to,
    ensures
        window_min(s, thr, from, to + 1) == if required_reduction(s[to] as int, thr) < window_min(
            s,
            thr,
            from,
            to,
        ) {
            required_reduction(s[to] as int, thr)
        } else {
            window_min(s, thr, from, to)
        },
    decreases to - from,
{
    if from < to {
        lemma_window_min_snoc(s, thr, from + 1, to);
    } else {
        assert(window_min(s, thr, from + 1, to + 1) == SCALE as int);
    }
}

/// A window's scheduled reduction is at most what any one sample in it
/// demands.
pub proof fn lemma_window_min_member(s: Seq<i64>, thr: int, from: int, to: int, k: int)
    requires
        from <= k < to,
    ensures
        window_min(s, thr, from, to) <= required_reduction(s[k] as int, thr),
    decreases k - from,
{
    if from < k {
        lemma_window_min_member(s, thr, from + 1, to, k);
    }
}

/// What one smoothing step yields: a snap lands exactly on the target; a
/// release keeps the gain between its old value and the target, and moves
/// strictly toward a strictly higher target.
pub proof fn lemma_smooth_step_bounds(cur: int, target: int, coeff: int)
    requires
        0 <= cur <= SCALE,
        0 <= target <= SCALE,
        0 <= coeff < SCALE,
    ensures
        0 <= smooth_step(cur, target, coeff) <= target,
        target < cur ==> smooth_step(cur, target, coeff) == target,
        target >= cur ==> smooth_step(cur, target, coeff) >= cur,
        target > cur ==> smooth_step(cur, target, coeff) > cur,
{
    if target >= cur {
        let d = target - cur;
        assert(d * coeff >= 0) by (nonlinear_arith)
            requires
                d >= 0,
                coeff >= 0,
        ;
        lemma_scale_shrinks(d, coeff);
        if d > 0 {
            // d * coeff / SCALE <= d - 1 because d * coeff <= d * SCALE - d
            lemma_mul_le(coeff, (SCALE - 1) as int, d);
            assert(coeff * d == d * coeff) by (nonlinear_arith);
            assert(((SCALE - 1) as int) * d == d * (SCALE as int) - d) by (nonlinear_arith);
            lemma_fundamental_div_mod_converse(
                d * (SCALE as int) - d,
                SCALE as int,
                d - 1,
                (SCALE as int) - d,
            );
            assert((d - 1) * (SCALE as int) + ((SCALE as int) - d) == d * (SCALE as int) - d)
                by (nonlinear_arith);
            lemma_div_is_ordered(d * coeff, d * (SCALE as int) - d, SCALE as int);
        }
    }
}

/// The envelope never exceeds the schedule, stays within [0, unity], and
/// each entry is one smoothing step from the one before it.
pub proof fn lemma_env_bounds(sched: Seq<i64>, coeff: int, i: int)
    requires
        0 <= i < sched.len(),
        forall|j: int| 0 <= j < sched.len() ==> 0 <= #[trigger] sched[j] <= SCALE,
        0 <= coeff < SCALE,
    ensures
        0 <= env_from(sched, coeff, i) <= sched[i] as int,
        env_from(sched, coeff, i) <= SCALE,
    decreases i,
{
    if i == 0 {
        lemma_smooth_step_bounds(SCALE as int, sched[0] as int, coeff);
    } else {
        lemma_env_bounds(sched, coeff, i - 1);
        lemma_smooth_step_bounds(env_from(sched, coeff, i - 1), sched[i] as int, coeff);
    }
}

/// Release monotonicity: while the schedule demands nothing more severe,
/// the gain envelope never falls, and it rises strictly whenever it sits
/// strictly below the scheduled target; it falls only where the schedule
/// demands a reduction more severe than the gain it already has.
pub proof fn lemma_release_monotonic(sched: Seq<i64>, coeff: int, i: int)
    requires
        0 <= i,
        i + 1 < sched.len(),
        forall|j: int| 0 <= j < sched.len() ==> 0 <= #[trigger] sched[j] <= SCALE,
        0 <= coeff < SCALE,
    ensures
        env_from(sched, coeff, i) <= sched[i + 1] as int ==> env_from(sched, coeff, i) <= env_from(
            sched,
            coeff,
            i + 1,
        ),
        env_from(sched, coeff, i) < sched[i + 1] as int ==> env_from(sched, coeff, i) < env_from(
            sched,
            coeff,
            i + 1,
        ),
        env_from(sched, coeff, i + 1) < env_from(sched, coeff, i) ==> sched[i + 1] < env_from(
            sched,
            coeff,
            i,
        ),
{
    lemma_env_bounds(sched, coeff, i);
    lemma_smooth_step_bounds(env_from(sched, coeff, i), sched[i + 1] as int, coeff);
}

/// True lookahead: a sample above the threshold already holds the envelope
/// below unity over the whole lookahead window leading up to it.
pub proof fn lemma_lookahead_anticipates(
    s: Seq<i64>,
    thr: int,
    la: int,
    coeff: int,
    k: int,
    j: int,
)
    requires
        0 <= thr <= SCALE,
        1 <= la,
        0 <= coeff < SCALE,
        0 <= j <= k < s.len(),
        k < j + la,
        abs_val(s[k] as int) > thr,
    ensures
        env_at(s, thr, la, coeff, j) <= required_reduction(s[k] as int, thr),
        required_reduction(s[k] as int, thr) < SCALE,
{
    let sch = schedule_seq(s, thr, la);
    assert forall|m: int| 0 <= m < sch.len() implies 0 <= #[trigger] sch[m] <= SCALE by {
        lemma_window_min_bounds(
            s,
            thr,
            m,
            if m + la > s.len() {
                s.len() as int
            } else {
                m + la
            },
        );
    }
    lemma_env_bounds(sch, coeff, j);
    let hi = if j + la > s.len() {
        s.len() as int
    } else {
        j + la
    };
    lemma_window_min_member(s, thr, j, hi, k);
    lemma_window_min_bounds(s, thr, j, hi);
    // a reduction demanded by an overshooting sample is strictly below unity
    let a = abs_val(s[k] as int);
    assert(thr * (SCALE as int) < (SCALE as int) * a) by (nonlinear_arith)
        requires
            0 <= thr < a,
    ;
    lemma_div_strict_bound(thr * (SCALE as int), a, SCALE as int);
}

/// A lookahead limiter: threshold in hundredths of a dBFS, release time in
/// milliseconds, lookahead in milliseconds.
#[derive(Debug)]
pub struct Limiter {
    /// Threshold in hundredths of a dBFS; strictly negative.
    pub threshold: i64,
    /// Release time in milliseconds; strictly positive.
    pub release_time: i64,
    /// Lookahead in milliseconds; strictly positive.
    pub lookahead: usize,
}

impl Limiter {
    /// Default threshold: -1 dBFS.
    pub const DEFAULT_THRESHOLD: i64 = -100;

    /// Default release time in milliseconds.
    pub const DEFAULT_RELEASE_TIME: i64 = 50;

    /// Default lookahead in milliseconds.
    pub const DEFAULT_LOOKAHEAD_MS: usize = 5;

    /// Highest allowed threshold: -0.1 dBFS.
    pub const MAX_THRESHOLD: i64 = -10;

    /// A well-formed limiter configuration.
    pub open spec fn valid(&self) -> bool {
        &&& self.threshold < 0
        &&& self.threshold <= Limiter::MAX_THRESHOLD
        &&& self.release_time > 0
        &&& self.lookahead > 0
    }

    /// The linear amplitude of the configured threshold.
    pub open spec fn threshold_linear(&self) -> int {
        db_to_linear_spec(clamp_db(self.threshold as int))
    }

    /// Validate and construct a limiter. Construction succeeds exactly when
    /// the threshold is strictly negative and at most `MAX_THRESHOLD`, the
    /// release time is strictly positive and the lookahead is nonzero; each
    /// rejection names the offending parameter.
    pub fn new(threshold: i64, release_time: i64, lookahead_ms: usize) -> (r: Result<
        Limiter,
        ConfigError,
    >)
        ensures
            r is Ok <==> (threshold < 0 && threshold <= Limiter::MAX_THRESHOLD && release_time > 0
                && lookahead_ms > 0),
            r matches Ok(l) ==> l == (Limiter {
                threshold,
                release_time,
                lookahead: lookahead_ms,
            }) && l.valid(),
            threshold >= 0 ==> r == Result::<Limiter, ConfigError>::Err(
                ConfigError::ThresholdNotNegative,
            ),
            threshold < 0 && threshold > Limiter::MAX_THRESHOLD ==> r == Result::<
                Limiter,
                ConfigError,
            >::Err(ConfigError::ThresholdAboveMax),
            threshold < 0 && threshold <= Limiter::MAX_THRESHOLD && release_time <= 0 ==> r
                == Result::<Limiter, ConfigError>::Err(ConfigError::ReleaseTimeNotPositive),
            threshold < 0 && threshold <= Limiter::MAX_THRESHOLD && release_time > 0
                && lookahead_ms == 0 ==> r == Result::<Limiter, ConfigError>::Err(
                ConfigError::LookaheadZero,
            ),
    {
        if threshold >= 0 {
            return Err(ConfigError::ThresholdNotNegative);
        }
        if threshold > Limiter::MAX_THRESHOLD {
            return Err(ConfigError::ThresholdAboveMax);
        }
        if release_time <= 0 {
            return Err(ConfigError::ReleaseTimeNotPositive);
        }
        if lookahead_ms == 0 {
            return Err(ConfigError::LookaheadZero);
        }
        Ok(Limiter { threshold, release_time, lookahead: lookahead_ms })
    }

    /// The lookahead horizon in samples for a given rate and buffer length.
    fn lookahead_samples(&self, sample_rate: u32, len: usize) -> (r: usize)
        requires
            self.valid(),
        ensures
            r == lookahead_samples_spec(self.lookahead as int, sample_rate as int, len as int),
            1 <= r,
            r <= len || r == 1,
    {
        proof {
            assert((self.lookahead as int) * (sample_rate as int) >= 0) by (nonlinear_arith)
                requires
                    self.lookahead >= 0,
                    sample_rate >= 0,
            ;
            assert((self.lookahead as int) * (sample_rate as int) <= (usize::MAX as int) * (
            u32::MAX as int)) by (nonlinear_arith)
                requires
                    0 <= self.lookahead <= usize::MAX,
                    0 <= sample_rate <= u32::MAX,
            ;
        }
        let raw: i128 = (self.lookahead as i128) * (sample_rate as i128) / 1000;
        let capped: usize = if raw > len as i128 {
            len
        } else {
            raw as usize
        };
        if capped < 1 {
            1
        } else {
            capped
        }
    }

    /// The release coefficient in fixed point for a given rate.
    fn release_coeff(&self, sample_rate: u32) -> (r: i64)
        requires
            self.valid(),
        ensures
            r == release_coeff_spec(self.release_time as int, sample_rate as int),
            0 <= r < SCALE,
    {
        proof {
            assert((self.release_time as int) * (sample_rate as int) >= 0) by (nonlinear_arith)
                requires
                    self.release_time >= 0,
                    sample_rate >= 0,
            ;
            assert((self.release_time as int) * (sample_rate as int) <= (i64::MAX as int) * (
            u32::MAX as int)) by (nonlinear_arith)
                requires
                    0 <= self.release_time <= i64::MAX,
                    0 <= sample_rate <= u32::MAX,
            ;
        }
        let raw: i128 = (self.release_time as i128) * (sample_rate as i128) / 1000;
        let n: i64 = if raw > SCALE as i128 {
            SCALE
        } else {
            raw as i64
        };
        let coeff: i64 = n * SCALE / (n + 1);
        proof {
            lemma_div_pos_is_pos((n as int) * (SCALE as int), n as int + 1);
            lemma_div_strict_bound((n as int) * (SCALE as int), n as int + 1, SCALE as int);
            assert((n as int) * (SCALE as int) < (SCALE as int) * (n as int + 1))
                by (nonlinear_arith)
                requires
                    n >= 0,
            ;
        }
        coeff
    }

    /// First pass: the reduction schedule of a buffer. Entry `j` is the
    /// most severe reduction demanded by any sample in the lookahead window
    /// of `la` samples starting at `j`.
    fn reduction_schedule(samples: &Vec<i64>, thr: i64, la: usize) -> (sched: Vec<i64>)
        requires
            representable_buffer(samples@),
            0 <= thr <= SCALE,
            la >= 1,
        ensures
            sched@.len() == samples@.len(),
            forall|j: int|
                0 <= j < sched@.len() ==> #[trigger] sched@[j] as int == sched_at(
                    samples@,
                    thr as int,
                    la as int,
                    j,
                ),
            forall|j: int| 0 <= j < sched@.len() ==> 0 <= #[trigger] sched@[j] <= SCALE,
    {
        let n = samples.len();
        let mut sched: Vec<i64> = Vec::new();
        let mut j: usize = 0;
        while j < n
            invariant
                0 <= j <= n,
                n == samples@.len(),
                representable_buffer(samples@),
                0 <= thr <= SCALE,
                la >= 1,
                sched@.len() == j,
                forall|m: int|
                    0 <= m < j ==> #[trigger] sched@[m] as int == sched_at(
                        samples@,
                        thr as int,
                        la as int,
                        m,
                    ),
                forall|m: int| 0 <= m < j ==> 0 <= #[trigger] sched@[m] <= SCALE,
            decreases n - j,
        {
            let hi: usize = if la >= n - j {
                n
            } else {
                j + la
            };
            let mut m: i64 = SCALE;
            let mut k: usize = j;
            while k < hi
                invariant
                    0 <= j <= k <= hi <= n,
                    n == samples@.len(),
                    representable_buffer(samples@),
                    0 <= thr <= SCALE,
                    m as int == window_min(samples@, thr as int, j as int, k as int),
                    0 <= m <= SCALE,
                decreases hi - k,
            {
                let x = samples[k];
                let a: i64 = if x >= 0 {
                    x
                } else {
                    -x
                };
                let red: i64 = if a > thr {
                    thr * SCALE / a
                } else {
                    SCALE
                };
                proof {
                    lemma_required_reduction_bounds(samples@[k as int] as int, thr as int);
                    lemma_window_min_snoc(samples@, thr as int, j as int, k as int);
                }
                if red < m {
                    m = red;
                }
                k = k + 1;
            }
            sched.push(m);
            j = j + 1;
        }
        sched
    }

    /// Second pass: smooth a reduction schedule into the gain envelope,
    /// snapping down instantly and releasing gradually.
    fn smooth_envelope(sched: &Vec<i64>, coeff: i64) -> (env: Vec<i64>)
        requires
            forall|j: int| 0 <= j < sched@.len() ==> 0 <= #[trigger] sched@[j] <= SCALE,
            0 <= coeff < SCALE,
        ensures
            env@.len() == sched@.len(),
            forall|j: int|
                0 <= j < env@.len() ==> #[trigger] env@[j] as int == env_from(
                    sched@,
                    coeff as int,
                    j,
                ),
            forall|j: int| 0 <= j < env@.len() ==> 0 <= #[trigger] env@[j] <= SCALE,
    {
        let n = sched.len();
        let mut env: Vec<i64> = Vec::new();
        let mut cur: i64 = SCALE;
        let mut i: usize = 0;
        while i < n
            invariant
                0 <= i <= n,
                n == sched@.len(),
                forall|j: int| 0 <= j < n ==> 0 <= #[trigger] sched@[j] <= SCALE,
                0 <= coeff < SCALE,
                env@.len() == i,
                0 <= cur <= SCALE,
                cur as int == if i == 0 {
                    SCALE as int
                } else {
                    env_from(sched@, coeff as int, i - 1)
                },
                forall|j: int|
                    0 <= j < i ==> #[trigger] env@[j] as int == env_from(sched@, coeff as int, j),
                forall|j: int| 0 <= j < i ==> 0 <= #[trigger] env@[j] <= SCALE,
            decreases n - i,
        {
            let t = sched[i];
            proof {
                lemma_smooth_step_bounds(cur as int, t as int, coeff as int);
            }
            if t < cur {
                cur = t;
            } else {
                let d: i64 = t - cur;
                cur = t - d * coeff / SCALE;
            }
            env.push(cur);
            i = i + 1;
        }
        env
    }

    /// The per-sample gain envelope the limiter would apply to a buffer:
    /// the smoothed reduction schedule for this configuration at the given
    /// sample rate.
    pub fn gain_envelope(&self, samples: &Vec<i64>, sample_rate: u32) -> (env: Vec<i64>)
        requires
            self.valid(),
            representable_buffer(samples@),
        ensures
            env@.len() == samples@.len(),
            forall|i: int|
                0 <= i < env@.len() ==> #[trigger] env@[i] as int == env_at(
                    samples@,
                    self.threshold_linear(),
                    lookahead_samples_spec(
                        self.lookahead as int,
                        sample_rate as int,
                        samples@.len() as int,
                    ),
                    release_coeff_spec(self.release_time as int, sample_rate as int),
                    i,
                ),
            forall|i: int| 0 <= i < env@.len() ==> 0 <= #[trigger] env@[i] <= SCALE,
    {
        let thr = db_to_linear_clamped(self.threshold);
        let la = self.lookahead_samples(sample_rate, samples.len());
        let coeff = self.release_coeff(sample_rate);
        let sched = Self::reduction_schedule(samples, thr, la);
        let env = Self::smooth_envelope(&sched, coeff);
        proof {
            assert(sched@ =~= schedule_seq(samples@, thr as int, la as int));
        }
        env
    }

    /// Limit a buffer: every output sample is the input sample scaled by
    /// the gain envelope, and no output magnitude exceeds the configured
    /// threshold's linear amplitude. Processing never fails.
    pub fn process(&self, samples: &Vec<i64>, _channels: usize, sample_rate: u32) -> (r: Result<
        Vec<i64>,
        MeasurementError,
    >)
        requires
            self.valid(),
            representable_buffer(samples@),
        ensures
            r is Ok,
            r matches Ok(out) ==> {
                let thr = self.threshold_linear();
                let la = lookahead_samples_spec(
                    self.lookahead as int,
                    sample_rate as int,
                    samples@.len() as int,
                );
                let coeff = release_coeff_spec(self.release_time as int, sample_rate as int);
                &&& out@.len() == samples@.len()
                &&& forall|i: int|
                    0 <= i < out@.len() ==> #[trigger] out@[i] as int == scale_spec(
                        samples@[i] as int,
                        env_at(samples@, thr, la, coeff, i),
                    )
                &&& forall|i: int|
                    0 <= i < out@.len() ==> abs_val(#[trigger] out@[i] as int)
                        <= self.threshold_linear()
            },
    {
        let ghost thr_spec = self.threshold_linear();
        let ghost la_spec = lookahead_samples_spec(
            self.lookahead as int,
            sample_rate as int,
            samples@.len() as int,
        );
        let ghost coeff_spec = release_coeff_spec(self.release_time as int, sample_rate as int);
        proof {
            lemma_lookahead_samples_bounds(
                self.lookahead as int,
                sample_rate as int,
                samples@.len() as int,
            );
            lemma_release_coeff_bounds(self.release_time as int, sample_rate as int);
        }
        let thr = db_to_linear_clamped(self.threshold);
        let env = self.gain_envelope(samples, sample_rate);
        let n = samples.len();
        let mut out: Vec<i64> = Vec::new();
        let mut i: usize = 0;
        while i < n
            invariant
                0 <= i <= n,
                n == samples@.len(),
                representable_buffer(samples@),
                self.valid(),
                thr as int == thr_spec,
                0 <= thr <= SCALE,
                la_spec == lookahead_samples_spec(
                    self.lookahead as int,
                    sample_rate as int,
                    samples@.len() as int,
                ),
                coeff_spec == release_coeff_spec(self.release_time as int, sample_rate as int),
                1 <= la_spec,
                0 <= coeff_spec < SCALE,
                env@.len() == n,
                forall|j: int|
                    0 <= j < n ==> #[trigger] env@[j] as int == env_at(
                        samples@,
                        thr_spec,
                        la_spec,
                        coeff_spec,
                        j,
                    ),
                forall|j: int| 0 <= j < n ==> 0 <= #[trigger] env@[j] <= SCALE,
                out@.len() == i,
                forall|j: int|
                    0 <= j < i ==> #[trigger] out@[j] as int == scale_spec(
                        samples@[j] as int,
                        env_at(samples@, thr_spec, la_spec, coeff_spec, j),
                    ),
                forall|j: int| 0 <= j < i ==> abs_val(#[trigger] out@[j] as int) <= thr_spec,
            decreases n - i,
        {
            let x = samples[i];
            let g = env[i];
            proof {
                let a = abs_val(x as int);
                lemma_mul_le(a, i64::MAX as int, g as int);
                assert((i64::MAX as int) * (g as int) <= (i64::MAX as int) * (SCALE as int));
            }
            let y = scale_sample(x, g);
            proof {
                let a = abs_val(x as int);
                lemma_scale_abs(x as int, g as int);
                if a > thr_spec {
                    // the schedule window at i contains i itself
                    let hi = if i + la_spec > samples@.len() {
                        samples@.len() as int
                    } else {
                        i + la_spec
                    };
                    lemma_window_min_member(samples@, thr_spec, i as int, hi, i as int);
                    let sch = schedule_seq(samples@, thr_spec, la_spec);
                    assert forall|m: int| 0 <= m < sch.len() implies 0 <= #[trigger] sch[m]
                        <= SCALE by {
                        lemma_window_min_bounds(
                            samples@,
                            thr_spec,
                            m,
                            if m + la_spec > samples@.len() {
                                samples@.len() as int
                            } else {
                                m + la_spec
                            },
                        );
                    }
                    lemma_env_bounds(sch, coeff_spec, i as int);
                    lemma_window_min_bounds(samples@, thr_spec, i as int, hi);
                    lemma_scale_within_limit(a, g as int, a, thr_spec);
                } else {
                    lemma_scale_shrinks(a, g as int);
                }
            }
            out.push(y);
            i = i + 1;
        }
        Ok(out)
    }
}

impl crate::dsp::AudioProcessor for Limiter {
    /// A limiter is well formed when its configuration was validated.
    open spec fn wf(&self) -> bool {
        self.valid()
    }

    /// Limit one buffer; see the inherent `process` for the full contract.
    fn process(&self, samples: &Vec<i64>, channels: usize, sample_rate: u32) -> (r: Result<
        Vec<i64>,
        MeasurementError,
    >) {
        Limiter::process(self, samples, channels, sample_rate)
    }
}

impl Default for Limiter {
    /// The default limiter: -1 dBFS threshold, 50 ms release, 5 ms
    /// lookahead.
    fn default() -> (r: Limiter)
        ensures
            r.threshold == Limiter::DEFAULT_THRESHOLD,
            r.release_time == Limiter::DEFAULT_RELEASE_TIME,
            r.lookahead == Limiter::DEFAULT_LOOKAHEAD_MS,
            r.valid(),
    {
        Limiter {
            threshold: Limiter::DEFAULT_THRESHOLD,
            release_time: Limiter::DEFAULT_RELEASE_TIME,
            lookahead: Limiter::DEFAULT_LOOKAHEAD_MS,
        }
    }
}

} // verus!
