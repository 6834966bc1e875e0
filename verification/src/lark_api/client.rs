//! The messaging client's decisions: response status checking, bearer token
//! rendering, and the token cache's expiry arithmetic.

use crate::util::text::{push_str_chars, string_from_chars};
use vstd::prelude::*;

verus! {

/// The status every service response carries: a code, zero for success, and
/// a message.
pub struct CommonResp {
    pub code: i64,
    pub msg: String,
}

impl CommonResp {
    /// Whether the response reports success.
    pub fn is_success(&self) -> (r: bool)
        ensures
            r == (self.code == 0),
    {
        self.code == 0
    }
}

/// The `Authorization` value carrying an access token.
pub fn bearer_value(token: &str) -> (out: String)
    ensures
        out@ == "Bearer "@ + token@,
{
    let mut buf: Vec<char> = Vec::new();
    push_str_chars(&mut buf, "Bearer ");
    push_str_chars(&mut buf, token);
    string_from_chars(&buf)
}

/// Whether a cached access token is still fresh at `now` and can be reused
/// instead of requesting a new one.
pub fn token_cache_fresh(expires_at: u128, now: u128) -> (r: bool)
    ensures
        r == (now < expires_at),
{
    now < expires_at
}

/// When a token obtained at `now` with a validity of `expire_secs` seconds
/// expires, renewed one minute early; a shorter validity expires at once.
pub fn token_expiry(now: u128, expire_secs: u64) -> (r: u128)
    requires
        now + (expire_secs as int) * 1000000000 < 0x100000000000000000000000000000000int,
    ensures
        r == now + (if expire_secs >= 60 {
            (expire_secs - 60) as int
        } else {
            0int
        }) * 1000000000,
{
    let margin: u64 = if expire_secs >= 60 {
        expire_secs - 60
    } else {
        0
    };
    now + (margin as u128) * 1000000000
}

} // verus!
