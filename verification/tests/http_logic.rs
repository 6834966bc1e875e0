use base64::Engine;
use myrust::http::client::{
    outbound_trace_header, should_capture_req_body, should_capture_resp_body,
};
use myrust::http::trace_util::{format_headers, trace_id_header, TraceConfig};
use myrust::http::tracer::{
    body_exceeded_note, body_log_text, content_len, is_text, parse_trace_header,
    should_read_body, Tracer,
};
use myrust::tracing::{insert_trace_id, TraceIdMap};
use myrust::util::radix32::radix_32;

#[test]
fn tracer_builder_sets_each_choice() {
    let t = Tracer::builder()
        .with_log_req_headers(true)
        .with_log_resp_body_size(64)
        .build();
    assert!(t.log_req_headers);
    assert!(!t.log_resp_headers);
    assert_eq!(t.log_req_body_size, 0);
    assert_eq!(t.log_resp_body_size, 64);
    assert!(t.wants_body_logging());

    let both = Tracer::builder()
        .with_log_headers(true)
        .with_log_body_size(128)
        .build();
    assert!(both.log_req_headers && both.log_resp_headers);
    assert_eq!(both.log_req_body_size, 128);
    assert_eq!(both.log_resp_body_size, 128);

    let plain = Tracer::builder().build();
    assert!(!plain.wants_body_logging());

    let req_only = Tracer::builder()
        .with_log_req_body_size(16)
        .with_log_resp_headers(true)
        .build();
    assert_eq!(req_only.log_req_body_size, 16);
    assert!(req_only.log_resp_headers);
}

#[test]
fn trace_config_combinators() {
    let c = TraceConfig::trace_only();
    assert!(!c.log_req_headers && !c.log_resp_headers);
    assert_eq!(c.log_req_body_size, 0);

    let h = TraceConfig::log_headers();
    assert!(h.log_req_headers && h.log_resp_headers);

    let b = TraceConfig::log_body(512);
    assert_eq!(b.log_req_body_size, 512);
    assert_eq!(b.log_resp_body_size, 512);

    let all = TraceConfig::log_all(64).only_on_error(true);
    assert!(all.log_req_headers && all.only_on_error && all.always_log_headers);

    let picked = TraceConfig::trace_only()
        .log_req_headers()
        .log_resp_body(9);
    assert!(picked.log_req_headers && !picked.log_resp_headers);
    assert_eq!(picked.log_resp_body_size, 9);
}

#[test]
fn logging_decisions_follow_error_state() {
    let c = TraceConfig::log_headers().only_on_error(false);
    assert!(c.should_log(true));
    assert!(!c.should_log(false));
    assert!(!c.should_log_headers(false));
    let always = TraceConfig::log_headers().only_on_error(true);
    assert!(always.should_log_headers(false));
    let plain = TraceConfig::log_headers();
    assert!(plain.should_log(false));
}

#[test]
fn inbound_header_decoding() {
    assert_eq!(parse_trace_header(None), None);
    assert_eq!(parse_trace_header(Some("")), None);
    assert_eq!(parse_trace_header(Some("not valid!")), None);
    assert_eq!(parse_trace_header(Some("10")), Some(32));
    let text = radix_32(987654321).to_text();
    assert_eq!(parse_trace_header(Some(&text)), Some(987654321));
    assert_eq!(trace_id_header(), "X-Trace-Id");
}

#[test]
fn content_length_parsing() {
    assert_eq!(content_len(None), None);
    assert_eq!(content_len(Some("")), None);
    assert_eq!(content_len(Some("abc")), None);
    assert_eq!(content_len(Some("0")), Some(0));
    assert_eq!(content_len(Some("+42")), Some(42));
    assert_eq!(content_len(Some("18446744073709551615")), Some(u64::MAX));
    assert_eq!(content_len(Some("18446744073709551616")), None);
    assert_eq!(content_len(Some("-1")), None);
}

#[test]
fn text_content_types() {
    assert!(is_text(Some("application/json")));
    assert!(is_text(Some("application/json; charset=utf-8")));
    assert!(is_text(Some("text/plain")));
    assert!(is_text(Some("application/x-www-form-urlencoded")));
    assert!(!is_text(Some("application/octet-stream")));
    assert!(!is_text(None));
}

#[test]
fn body_read_decision() {
    assert_eq!(should_read_body(0, Some("application/json"), Some("10")), None);
    assert_eq!(should_read_body(100, None, Some("10")), None);
    assert_eq!(
        should_read_body(100, Some("application/json"), Some("10")),
        Some(10)
    );
    assert_eq!(
        should_read_body(100, Some("application/json"), Some("101")),
        None
    );
    assert_eq!(should_read_body(100, Some("application/json"), None), None);
}

#[test]
fn capture_decisions() {
    assert!(should_capture_req_body(10, Some(10)));
    assert!(!should_capture_req_body(10, Some(11)));
    assert!(!should_capture_req_body(0, Some(0)));
    assert!(!should_capture_req_body(10, None));
    assert!(should_capture_resp_body(10, Some(3)));
    assert!(!should_capture_resp_body(10, None));
}

#[test]
fn body_exceeded_message() {
    assert_eq!(
        body_exceeded_note(4096),
        "body exceeded maximum length of 4096, skip logging"
    );
}

#[test]
fn body_text_rendering() {
    let text = body_log_text(&b"{\"ok\":true}".to_vec());
    assert_eq!(text, "{\"ok\":true}");
    let raw: Vec<u8> = vec![0xFF, 0x00, 0x7F, 0xC0];
    let rendered = body_log_text(&raw);
    let expected = base64::engine::general_purpose::URL_SAFE_NO_PAD.encode(&raw);
    assert_eq!(rendered, expected);
    assert_eq!(rendered, "_wB_wA");
    assert_eq!(body_log_text(&vec![0xFF]), "_w");
    assert_eq!(body_log_text(&vec![0xFF, 0xFF]), "__8");
}

#[test]
fn outbound_header_encodes_registered_trace() {
    let mut table = TraceIdMap::new();
    assert_eq!(outbound_trace_header(&table, 9), None);
    insert_trace_id(&mut table, 9, 32);
    assert_eq!(outbound_trace_header(&table, 9), Some("10".to_string()));
}

#[test]
fn header_formatting() {
    let pairs = vec![
        ("host".to_string(), "example.test".to_string()),
        ("accept".to_string(), "*/*".to_string()),
    ];
    assert_eq!(format_headers(&pairs), "host: example.test\naccept: */*\n");
    assert_eq!(format_headers(&Vec::new()), "");
}
