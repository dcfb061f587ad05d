//! The response policy for faults raised by the load-management middleware
//! around the HTTP boundary.
//!
//! The boundary classifies a middleware fault — the request timed out, the
//! service shed load, or something else went wrong — and this policy decides
//! the status code and message body reported to the client. Classifying the
//! fault requires inspecting the middleware's own error types and stays at
//! the boundary; the decision itself is pure.

use vstd::prelude::*;

verus! {

/// A fault raised by the middleware around the HTTP boundary, classified at
/// the boundary into the kinds the response policy distinguishes.
#[derive(Clone, Copy, Debug, PartialEq, Eq, Structural)]
pub enum MiddlewareFault {
    /// The request ran past the global per-request timeout.
    TimedOut,
    /// The service shed the request under overload.
    Overloaded,
    /// Any other middleware failure.
    Other,
}

/// The status code and message reported for a middleware fault: request
/// timeout (408) when the request ran too long, service unavailable (503)
/// when load was shed, and internal server error (500) otherwise.
pub fn fault_response(f: &MiddlewareFault) -> (r: (u16, &'static str))
    ensures
        f is TimedOut ==> r.0 == 408 && r.1@ == "request timed out"@,
        f is Overloaded ==> r.0 == 503 && r.1@ == "service is overloaded, try again later"@,
        f is Other ==> r.0 == 500 && r.1@ == "Unhandled internal error"@,
{
    match f {
        MiddlewareFault::TimedOut => (408, "request timed out"),
        MiddlewareFault::Overloaded => (503, "service is overloaded, try again later"),
        MiddlewareFault::Other => (500, "Unhandled internal error"),
    }
}

} // verus!
