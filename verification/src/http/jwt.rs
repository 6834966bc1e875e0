//! The token-verifying middleware's logic: extracting the bearer token from
//! the authorization header, the expiry decision, and what each failure
//! means for the response.

use crate::util::text::{chars_vec, string_from_chars};
use vstd::prelude::*;

verus! {

/// What the middleware does with a failed verification: reject the request,
/// or pass it on carrying the failure.
#[derive(Clone, Copy)]
pub enum VerifierMode {
    MustSuccess,
    AllowFailed,
}

/// A verification failure with its cause erased down to plain values, so
/// that it can be carried in request state and rendered later.
#[derive(Clone, Debug)]
pub enum VerifierErrorErased {
    /// No authorization header was sent.
    NotProvided,
    /// The header value was not a valid string.
    NotValidStr,
    /// The header did not carry a bearer token.
    InvalidTokenType,
    /// The token's signature or shape was rejected.
    JwtError(String),
    /// The token was valid but past its expiry.
    Expired,
}

/// Verifies inbound bearer tokens with a signature algorithm, in one of the
/// two failure modes.
#[derive(Clone)]
pub struct Verifier<A> {
    pub algorithm: A,
    pub mode: VerifierMode,
}

impl<A> Verifier<A> {
    /// A verifier over an algorithm and a failure mode.
    pub fn new(algorithm: A, mode: VerifierMode) -> (v: Verifier<A>)
        ensures
            v.mode == mode,
    {
        Verifier { algorithm, mode }
    }
}

/// Extracts the bearer token from an authorization header value: a missing
/// header and a value without the bearer prefix are distinct failures, and
/// everything after the prefix is the token.
#[verifier::loop_isolation(false)]
pub fn bearer_token(header: Option<&str>) -> (r: Result<String, VerifierErrorErased>)
    ensures
        match header {
            None => r matches Err(e) && e is NotProvided,
            Some(h) => {
                if h@.len() >= 7 && h@.take(7) == "Bearer "@ {
                    r matches Ok(t) && t@ == h@.skip(7)
                } else {
                    r matches Err(e) && e is InvalidTokenType
                }
            },
        },
{
    if header.is_none() {
        return Err(VerifierErrorErased::NotProvided);
    }
    let h = header.unwrap();
    let cs = chars_vec(h);
    let prefix = chars_vec("Bearer ");
    proof {
        reveal_strlit("Bearer ");
        assert(prefix@.len() == 7);
    }
    if cs.len() < 7 {
        proof {
            assert(h@.len() < 7);
        }
        return Err(VerifierErrorErased::InvalidTokenType);
    }
    let mut i: usize = 0;
    while i < 7
        invariant
            cs@ == h@,
            prefix@ == "Bearer "@,
            prefix@.len() == 7,
            cs@.len() >= 7,
            i <= 7,
            forall|j: int| 0 <= j < i ==> cs@[j] == #[trigger] prefix@[j],
        decreases 7 - i,
    {
        if cs[i] != prefix[i] {
            proof {
                assert(h@.take(7) != "Bearer "@) by {
                    if h@.take(7) == "Bearer "@ {
                        assert(h@.take(7)[i as int] == "Bearer "@[i as int]);
                        assert(h@.take(7)[i as int] == h@[i as int]);
                    }
                }
            }
            return Err(VerifierErrorErased::InvalidTokenType);
        }
        i = i + 1;
    }
    proof {
        assert(h@.take(7) =~= "Bearer "@);
    }
    let mut token: Vec<char> = Vec::new();
    let mut k: usize = 7;
    while k < cs.len()
        invariant
            cs@ == h@,
            7 <= k <= cs@.len(),
            token@ == h@.skip(7).take(k - 7),
        decreases cs@.len() - k,
    {
        token.push(cs[k]);
        proof {
            let t = h@.skip(7);
            assert(t.take(k + 1 - 7) =~= t.take(k - 7) + seq![t[k - 7]]);
            assert(t[k - 7] == h@[k as int]);
        }
        k = k + 1;
    }
    proof {
        assert(h@.skip(7).take(h@.len() - 7) =~= h@.skip(7));
    }
    Ok(string_from_chars(&token))
}

/// Whether a token whose expiry lies at `expired_at` has expired at `now`,
/// both in milliseconds since the epoch.
pub fn token_expired(expired_at: u64, now: u64) -> (r: bool)
    ensures
        r == (expired_at < now),
{
    expired_at < now
}

/// Whether a verification failure rejects the request: only in the mode
/// that demands success.
pub fn rejects_on_failure(mode: &VerifierMode) -> (r: bool)
    ensures
        r == (mode is MustSuccess),
{
    match mode {
        VerifierMode::MustSuccess => true,
        VerifierMode::AllowFailed => false,
    }
}

/// The response a token-signing middleware returns: the signed token.
#[derive(Clone)]
pub struct SignResp {
    pub token: String,
}

impl From<String> for SignResp {
    fn from(token: String) -> (r: SignResp) {
        SignResp { token }
    }
}

impl vstd::std_specs::convert::FromSpecImpl<String> for SignResp {
    open spec fn obeys_from_spec() -> bool {
        true
    }

    open spec fn from_spec(token: String) -> SignResp {
        SignResp { token }
    }
}

/// Signs response payloads with an algorithm, for tokens valid a fixed
/// number of milliseconds.
#[derive(Clone)]
pub struct Signer<A> {
    pub algorithm: A,
    pub expiration_millis: u64,
}

impl<A> Signer<A> {
    /// A signer over an algorithm, for tokens valid `expiration_millis`
    /// milliseconds from signing.
    pub fn new(algorithm: A, expiration_millis: u64) -> (s: Signer<A>)
        ensures
            s.expiration_millis == expiration_millis,
    {
        Signer { algorithm, expiration_millis }
    }

    /// When a token signed at `now` (milliseconds since the epoch) expires.
    pub fn expiry(&self, now: u64) -> (r: u64)
        requires
            now + self.expiration_millis < 0x10000000000000000,
        ensures
            r == now + self.expiration_millis,
    {
        now + self.expiration_millis
    }
}

} // verus!
