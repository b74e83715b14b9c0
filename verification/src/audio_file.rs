//! Sample-format conversion for encoding, and file-name classification.
//!
//! The MP3 encoder consumes 16-bit PCM split into left and right channels;
//! the conversions from fixed-point samples to that layout are pure
//! integer arithmetic and live here. The encoder itself, and all file I/O,
//! live outside this crate.

use crate::dsp::{abs_val, lemma_mul_le, representable_buffer, scale_sample, scale_spec};
use vstd::prelude::*;
use vstd::string::StrSliceExecFns;

verus! {

/// Largest 16-bit PCM sample value.
pub const I16_MAX_SAMPLE: i64 = 32_767;

/// Smallest 16-bit PCM sample value.
pub const I16_MIN_SAMPLE: i64 = -32_768;

/// A fixed-point sample as a 16-bit PCM value: scaled so full scale maps to
/// the largest 16-bit value, then clamped to the 16-bit range.
pub open spec fn sample_to_i16_spec(x: int) -> int {
    let v = scale_spec(x, I16_MAX_SAMPLE as int);
    if v > I16_MAX_SAMPLE {
        I16_MAX_SAMPLE as int
    } else if v < I16_MIN_SAMPLE {
        I16_MIN_SAMPLE as int
    } else {
        v
    }
}

/// An MP3 output file: the sample-layout conversions its encoder needs.
pub struct Mp3File;

impl Mp3File {
    /// Create an MP3 file writer.
    pub fn new() -> (r: Mp3File) {
        Mp3File
    }

    /// Converts normalized fixed-point samples to 16-bit integer samples,
    /// clamping anything beyond full scale to the 16-bit range.
    pub fn convert_samples_to_i16(samples: &Vec<i64>) -> (r: Vec<i16>)
        requires
            representable_buffer(samples@),
        ensures
            r@.len() == samples@.len(),
            forall|i: int|
                0 <= i < samples@.len() ==> #[trigger] r@[i] as int == sample_to_i16_spec(
                    samples@[i] as int,
                ),
    {
        let n = samples.len();
        let mut out: Vec<i16> = Vec::new();
        let mut i: usize = 0;
        while i < n
            invariant
                0 <= i <= n,
                n == samples@.len(),
                representable_buffer(samples@),
                out@.len() == i,
                forall|j: int|
                    0 <= j < i ==> #[trigger] out@[j] as int == sample_to_i16_spec(
                        samples@[j] as int,
                    ),
            decreases n - i,
        {
            let x = samples[i];
            proof {
                lemma_mul_le(abs_val(x as int), i64::MAX as int, I16_MAX_SAMPLE as int);
            }
            let v = scale_sample(x, I16_MAX_SAMPLE);
            let clamped: i16 = if v > I16_MAX_SAMPLE {
                I16_MAX_SAMPLE as i16
            } else if v < I16_MIN_SAMPLE {
                I16_MIN_SAMPLE as i16
            } else {
                v as i16
            };
            out.push(clamped);
            i = i + 1;
        }
        out
    }

    /// Splits interleaved samples into separate left and right channels.
    /// Stereo buffers deinterleave, an odd trailing sample standing in for
    /// its missing pair; any other channel count duplicates the buffer.
    pub fn split_channels(samples: &Vec<i16>, channels: usize) -> (r: (Vec<i16>, Vec<i16>))
        ensures
            channels == 2 ==> {
                &&& r.0@.len() == (samples@.len() + 1) / 2
                &&& r.1@.len() == (samples@.len() + 1) / 2
                &&& forall|j: int| 0 <= j < r.0@.len() ==> #[trigger] r.0@[j] == samples@[2 * j]
                &&& forall|j: int|
                    0 <= j < r.1@.len() ==> #[trigger] r.1@[j] == if 2 * j + 1 < samples@.len() {
                        samples@[2 * j + 1]
                    } else {
                        samples@[2 * j]
                    }
            },
            channels != 2 ==> r.0@ == samples@ && r.1@ == samples@,
    {
        let n = samples.len();
        if channels == 2 {
            let mut left: Vec<i16> = Vec::new();
            let mut right: Vec<i16> = Vec::new();
            let pairs: usize = n / 2;
            let mut k: usize = 0;
            while k < pairs
                invariant
                    0 <= k <= pairs,
                    pairs == n / 2,
                    n == samples@.len(),
                    left@.len() == k,
                    right@.len() == k,
                    forall|j: int| 0 <= j < k ==> #[trigger] left@[j] == samples@[2 * j],
                    forall|j: int| 0 <= j < k ==> #[trigger] right@[j] == samples@[2 * j + 1],
                decreases pairs - k,
            {
                left.push(samples[2 * k]);
                right.push(samples[2 * k + 1]);
                k = k + 1;
            }
            if n % 2 == 1 {
                left.push(samples[n - 1]);
                right.push(samples[n - 1]);
            }
            (left, right)
        } else {
            let mut left: Vec<i16> = Vec::new();
            let mut i: usize = 0;
            while i < n
                invariant
                    0 <= i <= n,
                    n == samples@.len(),
                    left@.len() == i,
                    forall|j: int| 0 <= j < i ==> #[trigger] left@[j] == samples@[j],
                decreases n - i,
            {
                left.push(samples[i]);
                i = i + 1;
            }
            let mut right: Vec<i16> = Vec::new();
            let mut i2: usize = 0;
            while i2 < n
                invariant
                    0 <= i2 <= n,
                    n == samples@.len(),
                    right@.len() == i2,
                    forall|j: int| 0 <= j < i2 ==> #[trigger] right@[j] == samples@[j],
                decreases n - i2,
            {
                right.push(samples[i2]);
                i2 = i2 + 1;
            }
            proof {
                assert(left@ =~= samples@);
                assert(right@ =~= samples@);
            }
            (left, right)
        }
    }
}

/// The position of the last path separator in a path, or -1 if it has none.
pub open spec fn last_slash(s: Seq<char>) -> int
    decreases s.len(),
{
    if s.len() == 0 {
        -1
    } else if s[s.len() - 1] == '/' {
        s.len() - 1
    } else {
        last_slash(s.drop_last())
    }
}

/// A path whose final component carries the `.ogg` extension: it ends in
/// `.ogg` with at least one character of file stem before it.
pub open spec fn is_ogg_path_spec(s: Seq<char>) -> bool {
    let name_len = s.len() - 1 - last_slash(s);
    &&& name_len > 4
    &&& s[s.len() - 4] == '.'
    &&& s[s.len() - 3] == 'o'
    &&& s[s.len() - 2] == 'g'
    &&& s[s.len() - 1] == 'g'
}

/// Check whether the file name of a path carries the ".ogg" extension.
pub fn is_opus_file(path: &str) -> (r: bool)
    ensures
        r == is_ogg_path_spec(path@),
{
    let n = path.unicode_len();
    let mut start: usize = 0;
    let mut i: usize = 0;
    while i < n
        invariant
            0 <= i <= n,
            n == path@.len(),
            start == last_slash(path@.subrange(0, i as int)) + 1,
            start <= i,
        decreases n - i,
    {
        proof {
            assert(path@.subrange(0, i + 1).drop_last() == path@.subrange(0, i as int));
            assert(path@.subrange(0, i + 1).last() == path@[i as int]);
        }
        if path.get_char(i) == '/' {
            start = i + 1;
        }
        i = i + 1;
    }
    proof {
        assert(path@.subrange(0, n as int) == path@);
    }
    if n - start < 5 {
        return false;
    }
    path.get_char(n - 4) == '.' && path.get_char(n - 3) == 'o' && path.get_char(n - 2) == 'g'
        && path.get_char(n - 1) == 'g'
}

} // verus!
