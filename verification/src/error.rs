//! The ways in which a reader can fail.

use vstd::prelude::*;

verus! {

/// Why a reader could not be made, or could not produce a line. Either is
/// final for the reader concerned: nothing is tried again.
#[derive(Clone, Copy, Debug, PartialEq, Eq, Structural)]
pub enum LineReadError {
    /// The compressed file could not be opened or read.
    OpenError,
    /// The decoder could not be set up over the compressed bytes: they do not
    /// begin with a valid frame header, or zstd refused to make a decoder.
    DecoderInitError,
    /// The decoder failed while the stream was being read.
    ReadError,
}

} // verus!
