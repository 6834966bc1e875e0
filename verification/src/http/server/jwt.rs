//! The server-framework variant of the token-verifying middleware's logic:
//! the same bearer extraction, with its failures mapped to response status
//! codes.

use vstd::prelude::*;

verus! {

/// What the middleware does with a failed verification: reject the request,
/// or pass it on carrying the failure.
#[derive(Clone, Copy)]
pub enum VerifierMode {
    MustSuccess,
    AllowFailed,
}

/// Verifies inbound bearer tokens with a signature algorithm, in one of the
/// two failure modes.
#[derive(Clone)]
pub struct Verifier<A> {
    pub algorithm: A,
    pub mode: VerifierMode,
}

impl<A> Verifier<A> {
    /// A verifier over an algorithm and a failure mode.
    pub fn new(algorithm: A, mode: VerifierMode) -> (v: Verifier<A>)
        ensures
            v.mode == mode,
    {
        Verifier { algorithm, mode }
    }
}

/// The response status a verification failure maps to: an internal error
/// when no verifier was installed at all, a client error otherwise.
pub fn failure_status_code(no_verifier: bool) -> (r: u16)
    ensures
        r == if no_verifier {
            500int
        } else {
            400int
        },
{
    if no_verifier {
        500
    } else {
        400
    }
}

} // verus!
