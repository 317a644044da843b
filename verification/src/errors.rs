//! The closed set of failure kinds an operation can report.

use vstd::prelude::*;

verus! {

/// Why an invocation was rejected.  Every failure is terminal for that
/// invocation and leaves the stored state exactly as it was.
#[derive(Clone, Copy, Debug, PartialEq, Eq, Structural)]
pub enum Error {
    /// The referenced discharge plan was never created.
    PlanNotFound,
    /// A date ordering rule was violated (expected discharge not after
    /// admission, or a target time not in the future).
    InvalidDate,
    /// A percentage-style score was above 100.
    InvalidScore,
    /// A structurally invalid input (zero frequency or duration, or an
    /// empty appointment batch).
    InvalidInput,
    /// The plan has already been completed; completion fires exactly once.
    AlreadyCompleted,
    /// The external authorization check rejected the caller.
    Unauthorized,
}

} // verus!
