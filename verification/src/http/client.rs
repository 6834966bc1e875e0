//! The outbound HTTP client middleware's logic: recovering the current trace
//! identifier through the propagation table and rendering it for the
//! propagation header, plus the decision about capturing a request body for
//! logging.

use crate::tracing::{get_trace_id, TraceIdMap};
use crate::util::radix32::{encode_spec, radix_32};
use vstd::prelude::*;

verus! {

/// The value to stamp on an outgoing request's propagation header: the
/// codec-encoded trace identifier of the span registered under `handle`, or
/// `None` when no span is registered there.
pub fn outbound_trace_header(table: &TraceIdMap, handle: u64) -> (r: Option<String>)
    ensures
        match r {
            Some(v) => table@.contains_key(handle) && v@ == encode_spec(table@[handle]),
            None => !table@.contains_key(handle),
        },
{
    match get_trace_id(table, handle) {
        Some(id) => Some(radix_32(id).to_text()),
        None => None,
    }
}

/// Whether an outgoing request's body is captured for logging: body logging
/// must be on, the body's size must be known exactly, and it must stay
/// within the limit.
pub fn should_capture_req_body(max_size: u64, size_hint: Option<u64>) -> (r: bool)
    ensures
        r == (max_size > 0 && match size_hint {
            Some(n) => n <= max_size,
            None => false,
        }),
{
    max_size > 0 && match size_hint {
        Some(n) => n <= max_size,
        None => false,
    }
}

/// Whether a response body is captured for logging, from its declared
/// content length.
pub fn should_capture_resp_body(max_size: u64, content_length: Option<u64>) -> (r: bool)
    ensures
        r == (max_size > 0 && match content_length {
            Some(n) => n <= max_size,
            None => false,
        }),
{
    max_size > 0 && match content_length {
        Some(n) => n <= max_size,
        None => false,
    }
}

} // verus!
