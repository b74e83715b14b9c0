//! Loudness normalization and peak limiting for audio sample buffers.
//!
//! Audio amplitudes and gains are fixed-point numbers: the linear value 1.0
//! (full scale, unity gain) is `dsp::SCALE` units of an `i64`. Decibel values
//! (LUFS, dBFS) are `i64` counts of hundredths of a decibel, so `-1400`
//! stands for -14.00 LUFS. All processing is integer arithmetic on these
//! representations; decoding, loudness metering and encoding live outside
//! this crate and exchange plain sample buffers with it.

pub mod audio_file;
pub mod converter;
pub mod dsp;
pub mod errors;
pub mod limiter;
pub mod normalizer;
pub mod pipeline;
pub mod soundboard;
