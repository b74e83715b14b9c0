//! Error taxonomy of the normalization pipeline.
//!
//! Configuration errors are fatal and precede any processing; measurement
//! errors abort the single item being processed. A silent buffer during the
//! ceiling clamp is not an error: the clamp recovers locally by keeping the
//! unclamped gain, since silence cannot clip.

use vstd::prelude::*;

verus! {

/// A rejected configuration value, named after the offending parameter.
#[derive(Clone, Copy, Debug, PartialEq, Eq, Structural)]
pub enum ConfigError {
    /// The target loudness is zero or positive.
    TargetLoudnessNotNegative,
    /// The target loudness is louder than the allowed maximum.
    TargetLoudnessAboveMax,
    /// The peak ceiling is zero or positive.
    PeakCeilingNotNegative,
    /// The peak ceiling is higher than the allowed maximum.
    PeakCeilingAboveMax,
    /// The limiter threshold is zero or positive.
    ThresholdNotNegative,
    /// The limiter threshold is higher than the allowed maximum.
    ThresholdAboveMax,
    /// The limiter release time is zero or negative.
    ReleaseTimeNotPositive,
    /// The limiter lookahead is zero.
    LookaheadZero,
}

impl ConfigError {
    /// A human-readable description naming the offending parameter.
    pub fn message(&self) -> (r: &'static str)
        ensures
            self is TargetLoudnessNotNegative ==> r@ == "Target loudness must be negative"@,
            self is TargetLoudnessAboveMax ==> r@ == "Target loudness exceeds maximum allowed value"@,
            self is PeakCeilingNotNegative ==> r@ == "Peak ceiling must be negative"@,
            self is PeakCeilingAboveMax ==> r@ == "Peak ceiling exceeds maximum allowed value"@,
            self is ThresholdNotNegative ==> r@ == "Threshold must be negative"@,
            self is ThresholdAboveMax ==> r@ == "Threshold exceeds maximum allowed value"@,
            self is ReleaseTimeNotPositive ==> r@ == "Release time must be positive"@,
            self is LookaheadZero ==> r@ == "Lookahead must be greater than 0ms"@,
    {
        match self {
            ConfigError::TargetLoudnessNotNegative => "Target loudness must be negative",
            ConfigError::TargetLoudnessAboveMax => "Target loudness exceeds maximum allowed value",
            ConfigError::PeakCeilingNotNegative => "Peak ceiling must be negative",
            ConfigError::PeakCeilingAboveMax => "Peak ceiling exceeds maximum allowed value",
            ConfigError::ThresholdNotNegative => "Threshold must be negative",
            ConfigError::ThresholdAboveMax => "Threshold exceeds maximum allowed value",
            ConfigError::ReleaseTimeNotPositive => "Release time must be positive",
            ConfigError::LookaheadZero => "Lookahead must be greater than 0ms",
        }
    }
}

/// A fatal condition reported by an external codec collaborator.
#[derive(Clone, Copy, Debug, PartialEq, Eq, Structural)]
pub enum CodecError {
    /// The decoder could not produce samples from the input.
    DecodeFailed,
    /// The encoder could not produce output bytes.
    EncodeFailed,
    /// A whole-file format conversion failed.
    ConversionFailed,
}

impl CodecError {
    /// A human-readable description of the failed codec step.
    pub fn message(&self) -> (r: &'static str)
        ensures
            self is DecodeFailed ==> r@ == "Failed to decode audio"@,
            self is EncodeFailed ==> r@ == "Failed to encode audio"@,
            self is ConversionFailed ==> r@ == "Audio conversion failed"@,
    {
        match self {
            CodecError::DecodeFailed => "Failed to decode audio",
            CodecError::EncodeFailed => "Failed to encode audio",
            CodecError::ConversionFailed => "Audio conversion failed",
        }
    }
}

/// A fatal condition while turning a loudness measurement into a gain.
#[derive(Clone, Copy, Debug, PartialEq, Eq, Structural)]
pub enum MeasurementError {
    /// The loudness meter produced no usable (finite) value.
    InvalidLoudness,
    /// The corrective gain falls outside the representable range.
    InvalidGain,
}

impl MeasurementError {
    /// A human-readable description of the failed measurement step.
    pub fn message(&self) -> (r: &'static str)
        ensures
            self is InvalidLoudness ==> r@ == "Invalid loudness value calculated"@,
            self is InvalidGain ==> r@ == "Invalid gain value calculated"@,
    {
        match self {
            MeasurementError::InvalidLoudness => "Invalid loudness value calculated",
            MeasurementError::InvalidGain => "Invalid gain value calculated",
        }
    }
}

} // verus!
