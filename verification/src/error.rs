use vstd::prelude::*;

verus! {

/// Expected, recoverable failures of the analysis core.  Each is surfaced to
/// the caller as a typed value; none aborts the computation partway.
#[derive(Debug, Copy, Clone, PartialEq, Eq, Structural)]
pub enum AnalysisError {
    /// A requested window or offset exceeds the buffer bounds.
    OutOfRange,
    /// The buffer does not extend far enough past the analysis start to
    /// produce any result.
    InsufficientSamples,
    /// A window of length zero was requested, e.g. because the baud rate
    /// exceeds the sample rate.
    EmptyWindow,
    /// The operands of a window difference have unequal lengths.
    ShapeMismatch,
}

} // verus!
