//! Error taxonomy of the pipeline.
use vstd::prelude::*;
use vstd::string::to_string_from_display_ensures;

verus! {

/// Errors reported to the immediate caller; every other edge case degrades in band.
#[derive(Debug, Clone, PartialEq, Eq)]
pub enum Error {
    /// Two grids handed to one binary operation differ in shape.
    ShapeMismatch { expected: usize, found: usize },
    /// The 16-bit path was taken without its 16-bit band.
    MissingBand,
    /// The resampler reported an error.
    ResampleFailed,
    /// A composition mode without an implementation was invoked directly.
    NotImplemented,
    /// An argument that the pipeline cannot use.
    InvalidArgument { arg: String, value: String },
    /// A requested size of zero.
    ZeroSize { size: usize },
    /// A required argument was not given.
    MissingArgument { arg: String },
    /// The product lacks one of the two channels an operation needs.
    IncompleteDataPair { operation: String, available: String },
    /// Reading, writing or decoding failed outside the core.
    Io(String),
    /// Any other processing failure.
    Processing(String),
    /// A failure reported by an outside component.
    External(String),
}

impl Error {
    /// Wraps the displayed message of an outside failure.
    pub fn external<E: std::fmt::Display>(e: E) -> (r: Error)
        ensures
            r matches Error::External(m) && to_string_from_display_ensures::<E>(&e, m),
    {
        Error::External(e.to_string())
    }
}

} // verus!
