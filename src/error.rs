use vstd::prelude::*;

verus! {

/// Failures returned to the caller of a window server operation.
#[derive(Clone, Copy, Debug, PartialEq, Eq, Structural)]
pub enum OrbError {
    /// Unknown window id, unknown property, or no application accepts a path.
    NotFound,
    /// The id space is used up, or a window size does not fit in memory.
    Exhausted,
    /// The caller's buffer is too small to hold the whole answer.
    Truncated,
    /// The operation is not valid for this view.
    Unsupported,
    /// The display or device reported a failure.
    IoFailure,
}

} // verus!
