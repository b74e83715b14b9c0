//! Decibel/linear conversion, peak scanning and elementwise gain over
//! fixed-point samples.
//!
//! Amplitudes and gains are `i64` values scaled by [`SCALE`]; decibel values
//! are `i64` counts of hundredths of a decibel. The converter walks the exact
//! recurrence of [`db_to_linear_spec`], multiplying or dividing by the linear
//! ratio of one hundredth of a decibel per step, so every contract in the
//! crate can speak of conversion results as plain integers.

use vstd::arithmetic::div_mod::{lemma_div_is_ordered, lemma_div_multiples_vanish};
use vstd::prelude::*;

verus! {

/// Fixed-point amplitude scale: the linear value 1.0 (full scale amplitude,
/// unity gain) is this many units of an `i64`.
pub const SCALE: i64 = 1_000_000_000;

/// Fixed-point value of `10^(1/2000)`, the linear ratio of one hundredth of
/// a decibel, scaled by `SCALE`.
pub const RATIO: i64 = 1_001_151_956;

/// Largest linear value the converter produces; the conversion recurrence
/// saturates here instead of growing without bound.
pub const MAX_LINEAR: i64 = 4_000_000_000_000_000_000;

/// Lowest decibel value (in hundredths of a dB) the converter accepts.
pub const DB_MIN: i64 = -40_000;

/// Highest decibel value (in hundredths of a dB) the converter accepts.
pub const DB_MAX: i64 = 8_000;

/// Absolute value, as a mathematical integer.
pub open spec fn abs_val(x: int) -> int {
    if x >= 0 {
        x
    } else {
        -x
    }
}

/// A buffer of normalized samples: every amplitude lies in [-1.0, 1.0].
pub open spec fn valid_buffer(s: Seq<i64>) -> bool {
    forall|i: int| 0 <= i < s.len() ==> -SCALE <= #[trigger] s[i] <= SCALE
}

/// Every sample's absolute value fits in an `i64`.
pub open spec fn representable_buffer(s: Seq<i64>) -> bool {
    forall|i: int| 0 <= i < s.len() ==> #[trigger] s[i] > i64::MIN
}

/// The linear amplitude of `db` hundredths of a decibel: `SCALE` at 0 dB,
/// one ratio step larger per hundredth of a dB upward (saturating at
/// `MAX_LINEAR`), one ratio step smaller per hundredth of a dB downward.
pub open spec fn db_to_linear_spec(db: int) -> int
    decreases abs_val(db),
{
    if db == 0 {
        SCALE as int
    } else if db > 0 {
        let next = db_to_linear_spec(db - 1) * (RATIO as int) / (SCALE as int);
        if next > MAX_LINEAR {
            MAX_LINEAR as int
        } else {
            next
        }
    } else {
        db_to_linear_spec(db + 1) * (SCALE as int) / (RATIO as int)
    }
}

/// Conversion results are never negative, and never exceed the saturation
/// bound for non-positive decibel values.
pub proof fn lemma_d2l_bounds(db: int)
    ensures
        0 <= db_to_linear_spec(db),
        db <= 0 ==> db_to_linear_spec(db) <= SCALE,
        db_to_linear_spec(db) <= MAX_LINEAR,
    decreases abs_val(db),
{
    if db > 0 {
        lemma_d2l_bounds(db - 1);
        let v = db_to_linear_spec(db - 1);
        assert(v * RATIO >= 0) by (nonlinear_arith)
            requires
                v >= 0,
        ;
        assert(v * (RATIO as int) / (SCALE as int) >= 0);
    } else if db < 0 {
        lemma_d2l_bounds(db + 1);
        let v = db_to_linear_spec(db + 1);
        assert(v * SCALE >= 0) by (nonlinear_arith)
            requires
                v >= 0,
        ;
        assert(v * SCALE <= v * RATIO) by (nonlinear_arith)
            requires
                v >= 0,
        ;
        lemma_div_is_ordered(v * SCALE, v * RATIO, RATIO as int);
        lemma_div_multiples_vanish(v, RATIO as int);
    }
}

/// At and above 0 dB the linear value is at least `SCALE` (unity).
pub proof fn lemma_d2l_at_least_unity(db: int)
    requires
        db >= 0,
    ensures
        db_to_linear_spec(db) >= SCALE,
    decreases db,
{
    if db > 0 {
        lemma_d2l_at_least_unity(db - 1);
        let v = db_to_linear_spec(db - 1);
        assert(v * SCALE <= v * RATIO) by (nonlinear_arith)
            requires
                v >= 0,
        ;
        lemma_div_is_ordered(v * SCALE, v * RATIO, SCALE as int);
        lemma_div_multiples_vanish(v, SCALE as int);
    }
}

/// One step up the decibel scale never lowers the linear value.
pub proof fn lemma_d2l_step(db: int)
    ensures
        db_to_linear_spec(db) <= db_to_linear_spec(db + 1),
{
    lemma_d2l_bounds(db);
    lemma_d2l_bounds(db + 1);
    if db + 1 > 0 {
        let v = db_to_linear_spec(db);
        assert(v * SCALE <= v * RATIO) by (nonlinear_arith)
            requires
                v >= 0,
        ;
        lemma_div_is_ordered(v * SCALE, v * RATIO, SCALE as int);
        lemma_div_multiples_vanish(v, SCALE as int);
    } else {
        let v = db_to_linear_spec(db + 1);
        assert(v * SCALE <= v * RATIO) by (nonlinear_arith)
            requires
                v >= 0,
        ;
        lemma_div_is_ordered(v * SCALE, v * RATIO, RATIO as int);
        lemma_div_multiples_vanish(v, RATIO as int);
    }
}

/// The conversion is monotone: a higher decibel value never yields a lower
/// linear value.
pub proof fn lemma_d2l_monotone(a: int, b: int)
    requires
        a <= b,
    ensures
        db_to_linear_spec(a) <= db_to_linear_spec(b),
    decreases b - a,
{
    if a < b {
        lemma_d2l_monotone(a, b - 1);
        lemma_d2l_step(b - 1);
    }
}

/// Wherever the linear value is positive and clear of saturation, one step
/// up the decibel scale strictly raises it.
pub proof fn lemma_d2l_strict_step(db: int)
    requires
        db_to_linear_spec(db) >= 1,
        2 * db_to_linear_spec(db) <= MAX_LINEAR,
    ensures
        db_to_linear_spec(db) < db_to_linear_spec(db + 1),
{
    lemma_d2l_bounds(db);
    lemma_d2l_bounds(db + 1);
    if db + 1 > 0 {
        lemma_d2l_at_least_unity(db);
        let v = db_to_linear_spec(db);
        // v * RATIO / SCALE >= v + 1 because v * (RATIO - SCALE) >= SCALE
        assert(v * RATIO >= v * SCALE + SCALE) by (nonlinear_arith)
            requires
                v >= SCALE,
        ;
        lemma_div_is_ordered(v * SCALE + SCALE, v * RATIO, SCALE as int);
        lemma_div_multiples_vanish(v + 1, SCALE as int);
        assert((v + 1) * SCALE == v * SCALE + SCALE) by (nonlinear_arith);
        // and the step does not saturate: v * RATIO / SCALE <= 2 * v
        assert(v * RATIO <= v * (2 * SCALE)) by (nonlinear_arith)
            requires
                v >= 0,
        ;
        lemma_div_is_ordered(v * RATIO, v * (2 * SCALE), SCALE as int);
        lemma_div_multiples_vanish(2 * v, SCALE as int);
        assert(v * (2 * SCALE) == (2 * v) * SCALE) by (nonlinear_arith);
    } else {
        // downward-defined region: db_to_linear_spec(db) is a strict
        // shrinking of db_to_linear_spec(db + 1) whenever the latter is
        // positive
        let v = db_to_linear_spec(db + 1);
        if db_to_linear_spec(db) >= v {
            assert(v * SCALE < v * RATIO) by (nonlinear_arith)
                requires
                    v >= 1,
            ;
            lemma_div_is_ordered(v * RATIO, v * SCALE + (v * RATIO - v * SCALE), RATIO as int);
            lemma_div_multiples_vanish(v, RATIO as int);
            // v * SCALE / RATIO < v since v * SCALE < v * RATIO
            assert(v * (SCALE as int) / (RATIO as int) < v) by {
                if v * (SCALE as int) / (RATIO as int) >= v {
                    lemma_div_multiples_vanish(v, RATIO as int);
                    lemma_div_is_ordered(v * RATIO, v * SCALE, RATIO as int);
                    assert(false);
                }
            }
        }
    }
}

/// Convert a decibel value (hundredths of a dB) to a linear scale.
pub fn db_to_linear(db: i64) -> (r: i64)
    requires
        DB_MIN <= db <= DB_MAX,
    ensures
        r == db_to_linear_spec(db as int),
        0 <= r <= MAX_LINEAR,
        db <= 0 ==> r <= SCALE,
{
    let mut v: i64 = SCALE;
    if db >= 0 {
        let mut k: i64 = 0;
        while k < db
            invariant
                0 <= k <= db <= DB_MAX,
                v == db_to_linear_spec(k as int),
                0 <= v <= MAX_LINEAR,
            decreases db - k,
        {
            let wide: i128 = (v as i128) * (RATIO as i128) / (SCALE as i128);
            if wide > MAX_LINEAR as i128 {
                v = MAX_LINEAR;
            } else {
                v = wide as i64;
            }
            k = k + 1;
            proof {
                lemma_d2l_bounds(k as int);
            }
        }
        v
    } else {
        let mut k: i64 = 0;
        while k > db
            invariant
                db <= k <= 0,
                v == db_to_linear_spec(k as int),
                0 <= v <= SCALE,
            decreases k - db,
        {
            v = v * SCALE / RATIO;
            k = k - 1;
            proof {
                lemma_d2l_bounds(k as int);
            }
        }
        proof {
            lemma_d2l_bounds(db as int);
        }
        v
    }
}

/// A decibel value clamped from below to `DB_MIN`. Every decibel value at
/// or below `DB_MIN` has the linear value 0 in this fixed-point scale, so
/// clamping loses nothing.
pub open spec fn clamp_db(db: int) -> int {
    if db < DB_MIN {
        DB_MIN as int
    } else {
        db
    }
}

/// Convert a decibel value with no lower bound to a linear scale, clamping
/// it to the converter's domain first.
pub fn db_to_linear_clamped(db: i64) -> (r: i64)
    requires
        db <= DB_MAX,
    ensures
        r == db_to_linear_spec(clamp_db(db as int)),
        0 <= r <= MAX_LINEAR,
        db <= 0 ==> r <= SCALE,
{
    let c: i64 = if db < DB_MIN {
        DB_MIN
    } else {
        db
    };
    db_to_linear(c)
}

/// The largest decibel value in `[DB_MIN, d]` whose linear value does not
/// exceed `g`, or `DB_MIN` if there is none.
pub open spec fn linear_to_db_from(g: int, d: int) -> int
    decreases d - DB_MIN,
{
    if d <= DB_MIN {
        DB_MIN as int
    } else if db_to_linear_spec(d) <= g {
        d
    } else {
        linear_to_db_from(g, d - 1)
    }
}

/// The decibel value of a linear amplitude: the largest decibel count whose
/// linear value does not exceed `g`, clamped to `[DB_MIN, DB_MAX]`.
pub open spec fn linear_to_db_spec(g: int) -> int {
    linear_to_db_from(g, DB_MAX as int)
}

/// What the recursion in `linear_to_db_from` returns: a value in range,
/// below `g` in the linear scale unless it is the lower clamp, and with
/// everything above it in the linear scale exceeding `g`.
pub proof fn lemma_l2d_from(g: int, d: int)
    requires
        DB_MIN <= d,
    ensures
        DB_MIN <= linear_to_db_from(g, d) <= d,
        linear_to_db_from(g, d) > DB_MIN ==> db_to_linear_spec(linear_to_db_from(g, d)) <= g,
        forall|e: int| linear_to_db_from(g, d) < e <= d ==> db_to_linear_spec(e) > g,
    decreases d - DB_MIN,
{
    if d > DB_MIN && db_to_linear_spec(d) > g {
        lemma_l2d_from(g, d - 1);
    }
}

/// Any decibel value that sits on the boundary — its linear value within
/// `g`, the next one above `g` — is what `linear_to_db_spec` returns.
pub proof fn lemma_l2d_unique(g: int, r: int)
    requires
        DB_MIN <= r <= DB_MAX,
        db_to_linear_spec(r) <= g,
        r == DB_MAX || db_to_linear_spec(r + 1) > g,
    ensures
        linear_to_db_spec(g) == r,
{
    lemma_l2d_from(g, DB_MAX as int);
    let r0 = linear_to_db_from(g, DB_MAX as int);
    if r0 > r {
        lemma_d2l_monotone(r + 1, r0);
    }
    if r0 < r {
        assert(db_to_linear_spec(r) > g);
    }
}

/// Convert a non-negative linear value to the decibel scale (hundredths of
/// a dB), clamped to `[DB_MIN, DB_MAX]`.
pub fn linear_to_db(linear: i64) -> (r: i64)
    requires
        linear >= 0,
    ensures
        r == linear_to_db_spec(linear as int),
        DB_MIN <= r <= DB_MAX,
{
    let mut k: i64;
    let mut v: i64;
    if linear >= SCALE {
        // walk up from 0 dB until the next step would overshoot
        k = 0;
        v = SCALE;
        loop
            invariant
                0 <= k <= DB_MAX,
                v == db_to_linear_spec(k as int),
                0 <= v <= MAX_LINEAR,
                v <= linear,
            ensures
                0 <= k <= DB_MAX,
                db_to_linear_spec(k as int) <= linear,
                k == DB_MAX || db_to_linear_spec(k + 1) > linear,
            decreases DB_MAX - k,
        {
            if k == DB_MAX {
                break ;
            }
            proof {
                assert((v as int) * (RATIO as int) <= (MAX_LINEAR as int) * (RATIO as int))
                    by (nonlinear_arith)
                    requires
                        0 <= v <= MAX_LINEAR,
                ;
            }
            let wide: i128 = (v as i128) * (RATIO as i128) / (SCALE as i128);
            let next: i64 = if wide > MAX_LINEAR as i128 {
                MAX_LINEAR
            } else {
                wide as i64
            };
            proof {
                lemma_d2l_bounds(k + 1);
            }
            if next > linear {
                break ;
            }
            v = next;
            k = k + 1;
        }
        proof {
            lemma_l2d_unique(linear as int, k as int);
        }
        k
    } else {
        // walk down from 0 dB until the value fits under the target
        k = 0;
        v = SCALE;
        proof {
            assert forall|e: int| 0 < e <= DB_MAX implies db_to_linear_spec(e) > linear by {
                lemma_d2l_at_least_unity(e);
            }
        }
        loop
            invariant
                DB_MIN <= k <= 0,
                v == db_to_linear_spec(k as int),
                0 <= v <= SCALE,
                forall|e: int| k < e <= DB_MAX ==> db_to_linear_spec(e) > linear,
            ensures
                DB_MIN <= k <= 0,
                db_to_linear_spec(k as int) <= linear || k == DB_MIN,
                forall|e: int| k < e <= DB_MAX ==> db_to_linear_spec(e) > linear,
            decreases k - DB_MIN,
        {
            if v <= linear || k == DB_MIN {
                break ;
            }
            proof {
                assert forall|e: int| k - 1 < e <= DB_MAX implies db_to_linear_spec(e) > linear by {
                    if e > k {
                    } else {
                        assert(e == k);
                    }
                }
            }
            v = v * SCALE / RATIO;
            k = k - 1;
            proof {
                lemma_d2l_bounds(k as int);
            }
        }
        proof {
            if v <= linear && db_to_linear_spec(k as int) <= linear {
                lemma_l2d_unique(linear as int, k as int);
            } else {
                lemma_l2d_from(linear as int, DB_MAX as int);
                let r0 = linear_to_db_from(linear as int, DB_MAX as int);
                if r0 > DB_MIN {
                    assert(db_to_linear_spec(r0) > linear);
                }
            }
        }
        k
    }
}

/// Maximum absolute sample value of a buffer; 0 for an empty buffer.
pub open spec fn max_peak_spec(s: Seq<i64>) -> int
    decreases s.len(),
{
    if s.len() == 0 {
        0
    } else {
        let rest = max_peak_spec(s.drop_last());
        if abs_val(s.last() as int) > rest {
            abs_val(s.last() as int)
        } else {
            rest
        }
    }
}

/// The peak of a buffer bounds every sample in it.
pub proof fn lemma_max_peak_bounds(s: Seq<i64>)
    ensures
        max_peak_spec(s) >= 0,
        forall|i: int| 0 <= i < s.len() ==> abs_val(#[trigger] s[i] as int) <= max_peak_spec(s),
    decreases s.len(),
{
    if s.len() > 0 {
        lemma_max_peak_bounds(s.drop_last());
        assert(forall|i: int| 0 <= i < s.len() - 1 ==> #[trigger] s[i] == s.drop_last()[i]);
    }
}

/// A buffer whose samples all stay within a bound has a peak within that
/// bound.
pub proof fn lemma_max_peak_le(s: Seq<i64>, bound: int)
    requires
        forall|i: int| 0 <= i < s.len() ==> abs_val(#[trigger] s[i] as int) <= bound,
        bound >= 0,
    ensures
        max_peak_spec(s) <= bound,
    decreases s.len(),
{
    if s.len() > 0 {
        assert(forall|i: int| 0 <= i < s.len() - 1 ==> #[trigger] s.drop_last()[i] == s[i]);
        lemma_max_peak_le(s.drop_last(), bound);
    }
}

/// Find the maximum peak in the input: the largest absolute sample value,
/// or 0 for an empty buffer.
pub fn max_peak(samples: &Vec<i64>) -> (r: i64)
    requires
        representable_buffer(samples@),
    ensures
        r == max_peak_spec(samples@),
        r >= 0,
        samples@.len() == 0 ==> r == 0,
        forall|i: int| 0 <= i < samples@.len() ==> abs_val(#[trigger] samples@[i] as int) <= r,
{
    let mut r: i64 = 0;
    let mut i: usize = 0;
    while i < samples.len()
        invariant
            0 <= i <= samples@.len(),
            representable_buffer(samples@),
            r == max_peak_spec(samples@.subrange(0, i as int)),
            r >= 0,
        decreases samples@.len() - i,
    {
        let x = samples[i];
        let a = if x >= 0 {
            x
        } else {
            -x
        };
        proof {
            assert(samples@.subrange(0, i + 1).drop_last() == samples@.subrange(0, i as int));
            assert(samples@.subrange(0, i + 1).last() == samples@[i as int]);
        }
        if a > r {
            r = a;
        }
        i = i + 1;
    }
    proof {
        assert(samples@.subrange(0, samples@.len() as int) == samples@);
        lemma_max_peak_bounds(samples@);
    }
    r
}

/// A sample multiplied by a non-negative linear gain: the magnitude is
/// scaled and rounded toward zero, the sign is kept.
pub open spec fn scale_spec(x: int, gain: int) -> int {
    if x >= 0 {
        x * gain / (SCALE as int)
    } else {
        -((-x) * gain / (SCALE as int))
    }
}

/// Scaling by a gain multiplies the magnitude by at most `gain / SCALE`.
pub proof fn lemma_scale_abs(x: int, gain: int)
    requires
        gain >= 0,
    ensures
        abs_val(scale_spec(x, gain)) == abs_val(x) * gain / (SCALE as int),
        abs_val(scale_spec(x, gain)) >= 0,
{
    let m = abs_val(x);
    assert(m * gain >= 0) by (nonlinear_arith)
        requires
            m >= 0,
            gain >= 0,
    ;
    assert(m * gain / (SCALE as int) >= 0);
}

/// Scaling within a ceiling: if the gain is at most `lim * SCALE / p` and
/// the magnitude at most `p`, the scaled magnitude is at most `lim`.
pub proof fn lemma_scale_within_limit(a: int, gain: int, p: int, lim: int)
    requires
        0 <= a <= p,
        0 <= gain,
        0 < p,
        gain <= lim * (SCALE as int) / p,
        0 <= lim,
    ensures
        a * gain / (SCALE as int) <= lim,
{
    assert(gain * p <= lim * SCALE) by (nonlinear_arith)
        requires
            0 < p,
            0 <= gain,
            0 <= lim,
            gain <= lim * (SCALE as int) / p,
    ;
    assert(a * gain <= gain * p) by (nonlinear_arith)
        requires
            0 <= a <= p,
            0 <= gain,
    ;
    lemma_div_is_ordered(a * gain, lim * SCALE, SCALE as int);
    lemma_div_multiples_vanish(lim, SCALE as int);
}

/// Multiplication by a non-negative factor preserves order.
pub proof fn lemma_mul_le(a: int, b: int, c: int)
    by (nonlinear_arith)
    requires
        a <= b,
        c >= 0,
    ensures
        a * c <= b * c,
{
}

/// A product strictly bounds its floor quotient: `x < c * d` gives
/// `x / d < c`.
pub proof fn lemma_div_strict_bound(x: int, d: int, c: int)
    requires
        0 <= x,
        0 < d,
        x < c * d,
    ensures
        x / d < c,
{
    if x / d >= c {
        vstd::arithmetic::div_mod::lemma_fundamental_div_mod(x, d);
        vstd::arithmetic::div_mod::lemma_mod_bound(x, d);
        lemma_mul_le(c, x / d, d);
        assert(c * d <= (x / d) * d);
        assert(d * (x / d) == (x / d) * d) by (nonlinear_arith);
        assert(false);
    }
}

/// A gain of at most unity never raises a magnitude.
pub proof fn lemma_scale_shrinks(a: int, gain: int)
    requires
        0 <= a,
        0 <= gain <= SCALE,
    ensures
        a * gain / (SCALE as int) <= a,
{
    assert(a * gain <= a * SCALE) by (nonlinear_arith)
        requires
            0 <= a,
            gain <= SCALE,
    ;
    lemma_div_is_ordered(a * gain, a * SCALE, SCALE as int);
    lemma_div_multiples_vanish(a, SCALE as int);
}

/// A buffer scaled elementwise by a non-negative gain.
pub open spec fn scaled_seq(s: Seq<i64>, gain: int) -> Seq<i64> {
    Seq::new(s.len(), |i: int| scale_spec(s[i] as int, gain) as i64)
}

/// A dynamics stage: consumes one interleaved buffer and yields a processed
/// buffer of identical length.
pub trait AudioProcessor {
    /// The stage's configuration is well formed.
    spec fn wf(&self) -> bool;

    /// Process one buffer of interleaved samples.
    fn process(&self, samples: &Vec<i64>, channels: usize, sample_rate: u32) -> (r: Result<
        Vec<i64>,
        crate::errors::MeasurementError,
    >)
        requires
            self.wf(),
            representable_buffer(samples@),
        ensures
            r matches Ok(out) ==> out@.len() == samples@.len(),
    ;
}

/// Multiply one sample by a non-negative fixed-point gain.
pub fn scale_sample(x: i64, gain: i64) -> (r: i64)
    requires
        x > i64::MIN,
        gain >= 0,
        abs_val(x as int) * gain <= i64::MAX * SCALE,
    ensures
        r == scale_spec(x as int, gain as int),
        abs_val(r as int) == abs_val(x as int) * gain / (SCALE as int),
{
    let neg = x < 0;
    let mag: i64 = if neg {
        -x
    } else {
        x
    };
    proof {
        assert(mag * gain >= 0) by (nonlinear_arith)
            requires
                mag >= 0,
                gain >= 0,
        ;
        lemma_div_is_ordered(mag as int * gain as int, i64::MAX * SCALE, SCALE as int);
        lemma_div_multiples_vanish(i64::MAX as int, SCALE as int);
    }
    let scaled_wide: i128 = (mag as i128) * (gain as i128) / (SCALE as i128);
    let scaled: i64 = scaled_wide as i64;
    if neg {
        -scaled
    } else {
        scaled
    }
}

/// Multiply every sample of a buffer by a non-negative fixed-point gain.
pub fn scale_buffer(samples: &Vec<i64>, gain: i64) -> (r: Vec<i64>)
    requires
        valid_buffer(samples@),
        gain >= 0,
    ensures
        r@.len() == samples@.len(),
        forall|i: int|
            0 <= i < samples@.len() ==> #[trigger] r@[i] == scale_spec(samples@[i] as int, gain as int),
        forall|i: int| 0 <= i < r@.len() ==> abs_val(#[trigger] r@[i] as int) <= gain,
{
    let mut out: Vec<i64> = Vec::new();
    let mut i: usize = 0;
    while i < samples.len()
        invariant
            0 <= i <= samples@.len(),
            valid_buffer(samples@),
            gain >= 0,
            out@.len() == i,
            forall|j: int|
                0 <= j < i ==> #[trigger] out@[j] == scale_spec(samples@[j] as int, gain as int),
            forall|j: int| 0 <= j < i ==> abs_val(#[trigger] out@[j] as int) <= gain,
        decreases samples@.len() - i,
    {
        let x = samples[i];
        proof {
            assert(abs_val(x as int) * gain <= SCALE * gain) by (nonlinear_arith)
                requires
                    0 <= abs_val(x as int) <= SCALE,
                    gain >= 0,
            ;
            assert(SCALE * gain <= i64::MAX * SCALE) by (nonlinear_arith)
                requires
                    0 <= gain <= i64::MAX,
            ;
        }
        let y = scale_sample(x, gain);
        proof {
            lemma_scale_abs(x as int, gain as int);
            assert(abs_val(x as int) * gain / (SCALE as int) <= gain) by {
                lemma_div_multiples_vanish(gain as int, SCALE as int);
                lemma_scale_within_limit(abs_val(x as int), gain as int, SCALE as int, gain as int);
            }
        }
        out.push(y);
        i = i + 1;
    }
    out
}

} // verus!
