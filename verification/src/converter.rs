//! Whole-file format conversion seam.
//!
//! Converting an Opus/Ogg file to MP3 is the work of an external tool; the
//! trait here is the seam its runners implement. The library itself only
//! classifies and plans; it performs no I/O.

use crate::errors::CodecError;
use vstd::prelude::*;

verus! {

/// A converter from one audio file format to another. Implementors run an
/// external conversion (a codec process or library) and return the output
/// path they wrote; nothing is promised of that work here.
pub trait AudioConverter {
    /// Convert the file at `input_path`, writing the result to
    /// `output_path`; returns the path written on success.
    fn convert(&self, input_path: &str, output_path: &str) -> Result<String, CodecError>;
}

/// An Opus/Ogg source file awaiting conversion to MP3.
pub struct OpusFile;

impl OpusFile {
    /// Create an Opus file handle.
    pub fn new() -> (r: OpusFile) {
        OpusFile
    }
}

impl Default for OpusFile {
    /// An Opus file handle with nothing configured.
    fn default() -> (r: OpusFile) {
        OpusFile::new()
    }
}

} // verus!
