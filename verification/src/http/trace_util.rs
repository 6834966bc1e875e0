//! Shared tracing configuration for the HTTP middlewares, and the pure
//! decisions they make: what to log, and when.

use crate::util::text::{push_str_chars, string_from_chars};
use vstd::prelude::*;

verus! {

/// The name of the propagation header that carries a codec-encoded trace
/// identifier between processes.
pub fn trace_id_header() -> (r: &'static str)
    ensures
        r@ == "X-Trace-Id"@,
{
    "X-Trace-Id"
}

/// What an HTTP tracing middleware logs: request and response headers, and
/// request and response bodies up to a size limit (zero disables body
/// logging), possibly only for failed responses.
#[derive(Clone, Copy)]
pub struct TraceConfig {
    pub log_req_headers: bool,
    pub log_resp_headers: bool,
    pub log_req_body_size: u64,
    pub log_resp_body_size: u64,
    pub only_on_error: bool,
    pub always_log_headers: bool,
}

impl Default for TraceConfig {
    /// The default configuration: nothing is logged beyond the trace itself.
    fn default() -> (c: TraceConfig)
        ensures
            !c.log_req_headers,
            !c.log_resp_headers,
            c.log_req_body_size == 0,
            c.log_resp_body_size == 0,
            !c.only_on_error,
            !c.always_log_headers,
    {
        TraceConfig {
            log_req_headers: false,
            log_resp_headers: false,
            log_req_body_size: 0,
            log_resp_body_size: 0,
            only_on_error: false,
            always_log_headers: false,
        }
    }
}

impl TraceConfig {
    /// Traces requests without logging headers or bodies.
    pub fn trace_only() -> (c: TraceConfig)
        ensures
            c == TraceConfig::default_spec(),
    {
        TraceConfig::default()
    }

    /// The configuration that `Default` yields.
    pub open spec fn default_spec() -> TraceConfig {
        TraceConfig {
            log_req_headers: false,
            log_resp_headers: false,
            log_req_body_size: 0,
            log_resp_body_size: 0,
            only_on_error: false,
            always_log_headers: false,
        }
    }

    /// Logs request and response headers.
    pub fn log_headers() -> (c: TraceConfig)
        ensures
            c == (TraceConfig {
                log_req_headers: true,
                log_resp_headers: true,
                ..TraceConfig::default_spec()
            }),
    {
        TraceConfig { log_req_headers: true, log_resp_headers: true, ..TraceConfig::default() }
    }

    /// Logs request and response bodies up to `max_size` bytes.
    pub fn log_body(max_size: u64) -> (c: TraceConfig)
        ensures
            c == (TraceConfig {
                log_req_body_size: max_size,
                log_resp_body_size: max_size,
                ..TraceConfig::default_spec()
            }),
    {
        TraceConfig {
            log_req_body_size: max_size,
            log_resp_body_size: max_size,
            ..TraceConfig::default()
        }
    }

    /// Logs headers and bodies, bodies up to `body_max_size` bytes.
    pub fn log_all(body_max_size: u64) -> (c: TraceConfig)
        ensures
            c == (TraceConfig {
                log_req_headers: true,
                log_resp_headers: true,
                log_req_body_size: body_max_size,
                log_resp_body_size: body_max_size,
                ..TraceConfig::default_spec()
            }),
    {
        TraceConfig {
            log_req_headers: true,
            log_resp_headers: true,
            log_req_body_size: body_max_size,
            log_resp_body_size: body_max_size,
            ..TraceConfig::default()
        }
    }

    /// Also logs request headers.
    pub fn log_req_headers(self) -> (c: TraceConfig)
        ensures
            c == (TraceConfig { log_req_headers: true, ..self }),
    {
        TraceConfig { log_req_headers: true, ..self }
    }

    /// Also logs response headers.
    pub fn log_resp_headers(self) -> (c: TraceConfig)
        ensures
            c == (TraceConfig { log_resp_headers: true, ..self }),
    {
        TraceConfig { log_resp_headers: true, ..self }
    }

    /// Also logs request bodies up to `max_size` bytes.
    pub fn log_req_body(self, max_size: u64) -> (c: TraceConfig)
        ensures
            c == (TraceConfig { log_req_body_size: max_size, ..self }),
    {
        TraceConfig { log_req_body_size: max_size, ..self }
    }

    /// Also logs response bodies up to `max_size` bytes.
    pub fn log_resp_body(self, max_size: u64) -> (c: TraceConfig)
        ensures
            c == (TraceConfig { log_resp_body_size: max_size, ..self }),
    {
        TraceConfig { log_resp_body_size: max_size, ..self }
    }

    /// Restricts logging to failed responses, with headers still logged for
    /// every response when `always_log_headers` holds.
    pub fn only_on_error(self, always_log_headers: bool) -> (c: TraceConfig)
        ensures
            c == (TraceConfig { only_on_error: true, always_log_headers, ..self }),
    {
        TraceConfig { only_on_error: true, always_log_headers, ..self }
    }

    /// Whether the captured request and response details are logged for a
    /// response: always, unless logging is restricted to failures and the
    /// response is no failure.
    pub fn should_log(&self, response_failed: bool) -> (r: bool)
        ensures
            r == (response_failed || !self.only_on_error),
    {
        response_failed || !self.only_on_error
    }

    /// Whether headers are logged for a response: whenever details are
    /// logged, and also for successes when headers are always logged.
    pub fn should_log_headers(&self, should_log: bool) -> (r: bool)
        ensures
            r == (should_log || self.always_log_headers),
    {
        should_log || self.always_log_headers
    }
}

/// One header line of the logged form: name, a colon and a space, value, a
/// line break.
pub open spec fn header_line(name: Seq<char>, value: Seq<char>) -> Seq<char> {
    name + seq![':', ' '] + value + seq!['\n']
}

/// The logged form of a header list.
pub open spec fn headers_text(pairs: Seq<(Seq<char>, Seq<char>)>) -> Seq<char>
    decreases pairs.len(),
{
    if pairs.len() == 0 {
        Seq::empty()
    } else {
        headers_text(pairs.drop_last()) + header_line(pairs.last().0, pairs.last().1)
    }
}

/// Renders a header list, one `name: value` line per header.
#[verifier::loop_isolation(false)]
pub fn format_headers(pairs: &Vec<(String, String)>) -> (out: String)
    ensures
        out@ == headers_text(pairs@.map_values(|p: (String, String)| (p.0@, p.1@))),
{
    let ghost view = pairs@.map_values(|p: (String, String)| (p.0@, p.1@));
    let mut buf: Vec<char> = Vec::new();
    let mut i: usize = 0;
    while i < pairs.len()
        invariant
            i <= pairs@.len(),
            view == pairs@.map_values(|p: (String, String)| (p.0@, p.1@)),
            buf@ == headers_text(view.take(i as int)),
        decreases pairs@.len() - i,
    {
        proof {
            let t = view.take(i + 1);
            assert(t.drop_last() =~= view.take(i as int));
            assert(t.last() == view[i as int]);
        }
        push_str_chars(&mut buf, pairs[i].0.as_str());
        push_str_chars(&mut buf, ": ");
        push_str_chars(&mut buf, pairs[i].1.as_str());
        push_str_chars(&mut buf, "\n");
        proof {
            reveal_strlit(": ");
            reveal_strlit("\n");
            assert(": "@ =~= seq![':', ' ']);
            assert("\n"@ =~= seq!['\n']);
            assert(buf@ =~= headers_text(view.take(i + 1)));
        }
        i = i + 1;
    }
    proof {
        assert(view.take(view.len() as int) =~= view);
    }
    string_from_chars(&buf)
}

} // verus!
