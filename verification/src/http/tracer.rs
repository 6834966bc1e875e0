//! The server-side tracing middleware's logic: its configuration builder,
//! the inbound decoding of the propagation header, and the decisions about
//! reading and rendering request and response bodies.

use crate::util::radix32::{decode_spec, from_radix_32};
use crate::util::text::{contains_seq, dec_digits, parse_u64, parse_u64_spec, push_dec_u64,
    push_str_chars, str_contains, string_from_chars};
use base64::Engine;
use vstd::prelude::*;

verus! {

/// What the middleware logs for each request: headers, and bodies up to a
/// size limit; zero disables body logging.
#[derive(Clone, Copy)]
pub struct Tracer {
    pub log_req_headers: bool,
    pub log_resp_headers: bool,
    pub log_req_body_size: usize,
    pub log_resp_body_size: usize,
}

impl Default for Tracer {
    /// The default middleware: it traces requests and logs nothing else.
    fn default() -> (t: Tracer)
        ensures
            !t.log_req_headers,
            !t.log_resp_headers,
            t.log_req_body_size == 0,
            t.log_resp_body_size == 0,
    {
        Tracer {
            log_req_headers: false,
            log_resp_headers: false,
            log_req_body_size: 0,
            log_resp_body_size: 0,
        }
    }
}

/// Builds a `Tracer` out of individual logging choices.
pub struct TracerBuilder(pub Tracer);

impl Tracer {
    /// Starts building a middleware from the default configuration.
    pub fn builder() -> (b: TracerBuilder)
        ensures
            !b.0.log_req_headers,
            !b.0.log_resp_headers,
            b.0.log_req_body_size == 0,
            b.0.log_resp_body_size == 0,
    {
        TracerBuilder(Tracer::default())
    }

    /// Whether any body logging is configured; without it the middleware can
    /// hand the request straight through.
    pub fn wants_body_logging(&self) -> (r: bool)
        ensures
            r == (self.log_req_body_size != 0 || self.log_resp_body_size != 0),
    {
        self.log_req_body_size != 0 || self.log_resp_body_size != 0
    }
}

impl TracerBuilder {
    /// Chooses whether request headers are logged.
    pub fn with_log_req_headers(self, log_req_headers: bool) -> (b: TracerBuilder)
        ensures
            b.0 == (Tracer { log_req_headers, ..self.0 }),
    {
        TracerBuilder(Tracer { log_req_headers, ..self.0 })
    }

    /// Chooses whether response headers are logged.
    pub fn with_log_resp_headers(self, log_resp_headers: bool) -> (b: TracerBuilder)
        ensures
            b.0 == (Tracer { log_resp_headers, ..self.0 }),
    {
        TracerBuilder(Tracer { log_resp_headers, ..self.0 })
    }

    /// Chooses the request body logging limit.
    pub fn with_log_req_body_size(self, log_req_body_size: usize) -> (b: TracerBuilder)
        ensures
            b.0 == (Tracer { log_req_body_size, ..self.0 }),
    {
        TracerBuilder(Tracer { log_req_body_size, ..self.0 })
    }

    /// Chooses the response body logging limit.
    pub fn with_log_resp_body_size(self, log_resp_body_size: usize) -> (b: TracerBuilder)
        ensures
            b.0 == (Tracer { log_resp_body_size, ..self.0 }),
    {
        TracerBuilder(Tracer { log_resp_body_size, ..self.0 })
    }

    /// Chooses whether both request and response headers are logged.
    pub fn with_log_headers(self, log_headers: bool) -> (b: TracerBuilder)
        ensures
            b.0 == (Tracer {
                log_req_headers: log_headers,
                log_resp_headers: log_headers,
                ..self.0
            }),
    {
        TracerBuilder(
            Tracer { log_req_headers: log_headers, log_resp_headers: log_headers, ..self.0 },
        )
    }

    /// Chooses one logging limit for both request and response bodies.
    pub fn with_log_body_size(self, log_body_size: usize) -> (b: TracerBuilder)
        ensures
            b.0 == (Tracer {
                log_req_body_size: log_body_size,
                log_resp_body_size: log_body_size,
                ..self.0
            }),
    {
        TracerBuilder(
            Tracer {
                log_req_body_size: log_body_size,
                log_resp_body_size: log_body_size,
                ..self.0
            },
        )
    }

    /// The finished middleware.
    pub fn build(self) -> (t: Tracer)
        ensures
            t == self.0,
    {
        self.0
    }
}

/// Decodes the inbound propagation header: the decoded trace identifier, or
/// `None` for a missing or malformed header, which just means a new trace.
pub fn parse_trace_header(value: Option<&str>) -> (r: Option<u128>)
    ensures
        r == match value {
            Some(s) => decode_spec(s@),
            None => None::<u128>,
        },
{
    match value {
        Some(s) => from_radix_32(s),
        None => None,
    }
}

/// Reads a `Content-Length` header value as `str::parse::<u64>` does.
pub fn content_len(value: Option<&str>) -> (r: Option<u64>)
    ensures
        r == match value {
            Some(s) => parse_u64_spec(s@),
            None => None::<u64>,
        },
{
    match value {
        Some(s) => parse_u64(s),
        None => None,
    }
}

/// Whether a `Content-Type` header names a textual body worth logging:
/// JSON, plain text, or an urlencoded form.
pub fn is_text(content_type: Option<&str>) -> (r: bool)
    ensures
        r == match content_type {
            Some(s) => contains_seq(s@, "application/json"@) || contains_seq(s@, "text/plain"@)
                || contains_seq(s@, "application/x-www-form-urlencoded"@),
            None => false,
        },
{
    match content_type {
        Some(s) => {
            str_contains(s, "application/json") || str_contains(s, "text/plain") || str_contains(
                s,
                "application/x-www-form-urlencoded",
            )
        },
        None => false,
    }
}

/// Whether a request body should be read for logging, and why not: bodies
/// are read only when body logging is on, the body is textual, its length is
/// declared, and the declared length stays within the limit.
pub fn should_read_body(
    max_size: u64,
    content_type: Option<&str>,
    content_length: Option<&str>,
) -> (r: Option<u64>)
    ensures
        r == ({
            let text = match content_type {
                Some(s) => contains_seq(s@, "application/json"@) || contains_seq(
                    s@,
                    "text/plain"@,
                ) || contains_seq(s@, "application/x-www-form-urlencoded"@),
                None => false,
            };
            let len = match content_length {
                Some(s) => parse_u64_spec(s@),
                None => None::<u64>,
            };
            if max_size == 0 || !text {
                None::<u64>
            } else {
                match len {
                    Some(l) => if l <= max_size {
                        Some(l)
                    } else {
                        None::<u64>
                    },
                    None => None::<u64>,
                }
            }
        }),
{
    if max_size == 0 {
        return None;
    }
    if !is_text(content_type) {
        return None;
    }
    match content_len(content_length) {
        Some(l) => {
            if l <= max_size {
                Some(l)
            } else {
                None
            }
        },
        None => None,
    }
}

/// The note logged in place of a body that exceeds the logging limit.
pub fn body_exceeded_note(max_size: u64) -> (out: String)
    ensures
        out@ == "body exceeded maximum length of "@ + dec_digits(max_size as int)
            + ", skip logging"@,
{
    let mut buf: Vec<char> = Vec::new();
    push_str_chars(&mut buf, "body exceeded maximum length of ");
    push_dec_u64(&mut buf, max_size);
    push_str_chars(&mut buf, ", skip logging");
    proof {
        assert(buf@ =~= "body exceeded maximum length of "@ + dec_digits(max_size as int)
            + ", skip logging"@);
    }
    string_from_chars(&buf)
}

/// The symbol of the URL-safe base64 alphabet for one 6-bit group: the
/// upper-case letters, the lower-case letters, the digits, then `-` and `_`.
pub open spec fn base64_url_char(d: int) -> char
    recommends
        0 <= d < 64,
{
    if d < 26 {
        ((d + 65) as u8) as char
    } else if d < 52 {
        ((d + 71) as u8) as char
    } else if d < 62 {
        ((d - 4) as u8) as char
    } else if d == 62 {
        '-'
    } else {
        '_'
    }
}

/// URL-safe base64 without padding: each group of three bytes becomes four
/// symbols of their 6-bit slices, most significant first; a final pair of
/// bytes becomes three symbols, a final byte two, and nothing is appended
/// in their place.
pub open spec fn base64_url_nopad_spec(b: Seq<u8>) -> Seq<char>
    decreases b.len(),
{
    if b.len() == 0 {
        Seq::empty()
    } else if b.len() == 1 {
        let x = b[0] as int;
        seq![base64_url_char(x / 4), base64_url_char((x % 4) * 16)]
    } else if b.len() == 2 {
        let x = b[0] as int;
        let y = b[1] as int;
        seq![
            base64_url_char(x / 4),
            base64_url_char((x % 4) * 16 + y / 16),
            base64_url_char((y % 16) * 4),
        ]
    } else {
        let x = b[0] as int;
        let y = b[1] as int;
        let z = b[2] as int;
        seq![
            base64_url_char(x / 4),
            base64_url_char((x % 4) * 16 + y / 16),
            base64_url_char((y % 16) * 4 + z / 64),
            base64_url_char(z % 64),
        ] + base64_url_nopad_spec(b.skip(3))
    }
}

/// Relies on base64's `URL_SAFE_NO_PAD` engine: RFC 4648 section 5 encoding
/// with no padding appended, as stated by `base64_url_nopad_spec`.
#[verifier::external_body]
fn base64_url_nopad(bytes: &Vec<u8>) -> (r: String)
    ensures
        r@ == base64_url_nopad_spec(bytes@),
{
    base64::engine::general_purpose::URL_SAFE_NO_PAD.encode(bytes)
}

/// Relies on `std::str::from_utf8`: it yields the decoded text exactly when
/// the bytes are valid UTF-8.
#[verifier::external_body]
fn utf8_text(bytes: &Vec<u8>) -> (r: Option<String>)
    ensures
        match r {
            Some(s) => vstd::utf8::valid_utf8(bytes@) && s@ == vstd::utf8::decode_utf8(bytes@),
            None => !vstd::utf8::valid_utf8(bytes@),
        },
{
    std::str::from_utf8(bytes.as_slice()).ok().map(|s| s.to_string())
}

/// The text logged for a captured body: the body itself when it is valid
/// UTF-8, else its base64 rendering.
pub fn body_log_text(bytes: &Vec<u8>) -> (out: String)
    ensures
        out@ == if vstd::utf8::valid_utf8(bytes@) {
            vstd::utf8::decode_utf8(bytes@)
        } else {
            base64_url_nopad_spec(bytes@)
        },
{
    match utf8_text(bytes) {
        Some(s) => s,
        None => base64_url_nopad(bytes),
    }
}

} // verus!
