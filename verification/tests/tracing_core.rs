use myrust::tracing::{
    event_record, get_trace_id, insert_trace_id, remove_trace_id, FieldMap, JsonVisitor, Storage,
    TraceIdMap,
};
use myrust::util::id_gen::{gen_id, Generator};
use myrust::util::radix32::radix_32;

fn generator() -> Generator {
    Generator::from_node(0x0000_AABB_CCDD)
}

fn fields_text(fields: &FieldMap) -> String {
    // Render through an event record and cut the fields object out of it.
    let record = event_record("INFO", "t", None, None, fields, None);
    let start = record.find("\"fields\":").unwrap() + "\"fields\":".len();
    let rest = &record[start..];
    let end = rest.find(",\"file\"").unwrap();
    rest[..end].to_string()
}

#[test]
fn visitor_orders_fields_by_key() {
    let mut v = JsonVisitor::new();
    v.record_str("zeta", "z");
    v.record_i64("alpha", -3);
    v.record_u64("mid", 7);
    let text = fields_text(&v.fields);
    assert_eq!(text, "{\"alpha\":-3,\"mid\":7,\"zeta\":\"z\"}");
}

#[test]
fn visitor_overwrites_on_key_collision() {
    let mut v = JsonVisitor::new();
    v.record_u64("k", 1);
    v.record_u64("k", 2);
    v.record_bool("b", true);
    let text = fields_text(&v.fields);
    assert_eq!(text, "{\"b\":true,\"k\":2}");
}

#[test]
fn visitor_escapes_strings() {
    let mut v = JsonVisitor::new();
    v.record_str("msg", "a \"b\"\\\n\tc\u{1}");
    let text = fields_text(&v.fields);
    assert_eq!(text, "{\"msg\":\"a \\\"b\\\"\\\\\\n\\tc\\u0001\"}");
}

#[test]
fn visitor_u128_becomes_decimal_text() {
    let mut v = JsonVisitor::new();
    v.record_u128("big", 340_282_366_920_938_463_463_374_607_431_768_211_455u128);
    let text = fields_text(&v.fields);
    assert_eq!(
        text,
        "{\"big\":\"340282366920938463463374607431768211455\"}"
    );
}

#[test]
fn visitor_diverts_reserved_trace_id_key() {
    let mut v = JsonVisitor::new();
    v.record_u128("trace_id", 77);
    assert_eq!(v.explicit_trace_id(), Some(77));
    let text = fields_text(&v.fields);
    assert_eq!(text, "{}");
    let mut w = JsonVisitor::new();
    assert_eq!(w.explicit_trace_id(), None);
    w.record_u128("other", 5);
    assert_eq!(w.explicit_trace_id(), None);
    // A recorded zero seeds like any other value.
    let mut z = JsonVisitor::new();
    z.record_u128("trace_id", 0);
    assert_eq!(z.explicit_trace_id(), Some(0));
}

#[test]
fn visitor_float_text() {
    let mut v = JsonVisitor::new();
    v.record_f64_text("x", "2.5");
    v.record_f64_text("y", "-1e30");
    v.record_f64_text("bad", "NaN");
    let text = fields_text(&v.fields);
    assert_eq!(text, "{\"bad\":null,\"x\":2.5,\"y\":-1e30}");
}

#[test]
fn trace_inheritance() {
    let mut g = generator();
    let parent = Storage::new_span(&mut g, None, None, FieldMap::new(), 100);
    let child = Storage::new_span(&mut g, Some(&parent), Some(999), FieldMap::new(), 200);
    assert_eq!(child.trace_id, parent.trace_id);
    assert_eq!(child.parent_id, Some(parent.span_id));
    assert!(parent.parent_id.is_none());
}

#[test]
fn root_trace_seeding() {
    let mut g = generator();
    let explicit = Storage::new_span(&mut g, None, Some(4242), FieldMap::new(), 0);
    assert_eq!(explicit.trace_id, 4242);
    let zero = Storage::new_span(&mut g, None, Some(0), FieldMap::new(), 0);
    assert_eq!(zero.trace_id, 0);
    let fresh_a = Storage::new_span(&mut g, None, None, FieldMap::new(), 0);
    let fresh_b = Storage::new_span(&mut g, None, None, FieldMap::new(), 0);
    assert_ne!(fresh_a.trace_id, fresh_b.trace_id);
}

#[test]
fn busy_idle_accounting() {
    let mut g = generator();
    let mut s = Storage::new_span(&mut g, None, Some(1), FieldMap::new(), 1_000);
    s.enter(2_000);
    s.exit(2_500);
    assert_eq!(s.busy_time, 500);
    let idle = s.close_idle(3_000);
    assert_eq!(idle, 1_500);
    assert_eq!(s.busy_time + idle, 3_000 - 1_000);
}

#[test]
fn busy_time_accumulates_over_reentries() {
    let mut g = generator();
    let mut s = Storage::new_span(&mut g, None, Some(1), FieldMap::new(), 0);
    s.enter(10);
    s.exit(30);
    s.enter(50);
    s.exit(90);
    assert_eq!(s.busy_time, 60);
    assert_eq!(s.close_idle(100), 40);
}

#[test]
fn entered_once_and_closed_at_exit_has_zero_idle() {
    let mut g = generator();
    let mut s = Storage::new_span(&mut g, None, Some(1), FieldMap::new(), 700);
    s.enter(700);
    s.exit(1_700);
    assert_eq!(s.busy_time, 1_000);
    assert_eq!(s.close_idle(1_700), 0);
}

#[test]
fn table_hygiene() {
    let mut table = TraceIdMap::new();
    assert_eq!(get_trace_id(&table, 5), None);
    insert_trace_id(&mut table, 5, 1234);
    assert_eq!(get_trace_id(&table, 5), Some(1234));
    insert_trace_id(&mut table, 8, 999);
    assert_eq!(get_trace_id(&table, 8), Some(999));
    remove_trace_id(&mut table, 5);
    assert_eq!(get_trace_id(&table, 5), None);
    assert_eq!(get_trace_id(&table, 8), Some(999));
}

#[test]
fn span_close_record_schema() {
    let mut g = generator();
    let mut fields = JsonVisitor::new();
    fields.record_str("peer", "svc-b");
    let parent = Storage::new_span(&mut g, None, Some(51), FieldMap::new(), 0);
    let mut s = Storage::new_span(
        &mut g,
        Some(&parent),
        None,
        fields.into_fields(),
        1_000,
    );
    s.enter(1_000);
    s.exit(1_500);
    let record = s.close_record(
        "handle request",
        "INFO",
        "app::server",
        Some("server.rs"),
        Some(42),
        2_000,
    );
    let span_text = radix_32(s.span_id).to_text();
    let parent_text = radix_32(parent.span_id).to_text();
    let expected = format!(
        "{{\"busy_time\":\"500ns\",\"fields\":{{\"peer\":\"svc-b\"}},\"file\":\"server.rs\",\
         \"idle_time\":\"500ns\",\"level\":\"INFO\",\"line\":42,\"name\":\"handle request\",\
         \"parent_id\":\"{}\",\"span_id\":\"{}\",\"target\":\"app::server\",\"trace_id\":\"1j\",\
         \"type\":\"span\"}}",
        parent_text, span_text
    );
    assert_eq!(record, expected);

    let value: serde_json::Value = serde_json::from_str(&record).unwrap();
    assert_eq!(value["type"], serde_json::Value::String("span".to_string()));
    assert_eq!(value["trace_id"], serde_json::Value::String("1j".to_string()));
}

#[test]
fn span_close_record_without_parent_or_location() {
    let mut g = generator();
    let s = Storage::new_span(&mut g, None, Some(10), FieldMap::new(), 0);
    let record = s.close_record("job", "DEBUG", "app", None, None, 0);
    let span_text = radix_32(s.span_id).to_text();
    let expected = format!(
        "{{\"busy_time\":\"0ns\",\"fields\":{{}},\"file\":null,\"idle_time\":\"0ns\",\
         \"level\":\"DEBUG\",\"line\":null,\"name\":\"job\",\"span_id\":\"{}\",\
         \"target\":\"app\",\"trace_id\":\"a\",\"type\":\"span\"}}",
        span_text
    );
    assert_eq!(record, expected);
    assert!(!record.contains("parent_id"));
}

#[test]
fn duration_rendering_in_records() {
    let mut g = generator();
    let mut s = Storage::new_span(&mut g, None, Some(1), FieldMap::new(), 0);
    s.enter(0);
    s.exit(1_500_000);
    // busy 1.5ms; idle at close 2_000_000: 0.5ms.
    let record = s.close_record("d", "INFO", "t", None, None, 2_000_000);
    assert!(record.contains("\"busy_time\":\"1.5ms\""), "{record}");
    assert!(record.contains("\"idle_time\":\"500\u{b5}s\""), "{record}");

    let mut s2 = Storage::new_span(&mut g, None, Some(1), FieldMap::new(), 0);
    s2.enter(0);
    s2.exit(2_500_000_000);
    let record2 = s2.close_record("d", "INFO", "t", None, None, 2_500_000_000);
    assert!(record2.contains("\"busy_time\":\"2.5s\""), "{record2}");
    assert!(record2.contains("\"idle_time\":\"0ns\""), "{record2}");
}

#[test]
fn event_record_inside_and_outside_span() {
    let mut v = JsonVisitor::new();
    v.record_str("message", "hello");
    let inside = event_record(
        "WARN",
        "app::core",
        Some("core.rs"),
        Some(7),
        &v.fields,
        Some((32, 33)),
    );
    assert_eq!(
        inside,
        "{\"fields\":{\"message\":\"hello\"},\"file\":\"core.rs\",\"level\":\"WARN\",\
         \"line\":7,\"span_id\":\"11\",\"target\":\"app::core\",\"trace_id\":\"10\",\
         \"type\":\"event\"}"
    );
    let outside = event_record("WARN", "app::core", None, None, &v.fields, None);
    assert_eq!(
        outside,
        "{\"fields\":{\"message\":\"hello\"},\"file\":null,\"level\":\"WARN\",\"line\":null,\
         \"target\":\"app::core\",\"type\":\"event\"}"
    );
    assert!(!outside.contains("trace_id"));
    assert!(!outside.contains("span_id"));
}

#[test]
fn end_to_end_trace_propagation() {
    // Service A: root span, trace id freshly generated.
    let mut gen_a = Generator::from_node(0xA);
    let mut table_a = TraceIdMap::new();
    let span_a = Storage::new_span(&mut gen_a, None, None, FieldMap::new(), 0);
    insert_trace_id(&mut table_a, 1, span_a.trace_id);

    // Outbound: look the trace id up by handle, encode it for the header.
    let header_value =
        myrust::http::client::outbound_trace_header(&table_a, 1).expect("span is open");

    // Service B: decode the header, seed its own root span with it.
    let decoded = myrust::http::tracer::parse_trace_header(Some(&header_value));
    assert!(decoded.is_some());
    let mut gen_b = Generator::from_node(0xB);
    let span_b = Storage::new_span(&mut gen_b, None, decoded, FieldMap::new(), 0);
    assert_eq!(span_b.trace_id, span_a.trace_id);

    // Both close records carry the identical trace id text.
    let record_a = span_a.close_record("a", "INFO", "svc_a", None, None, 10);
    let record_b = span_b.close_record("b", "INFO", "svc_b", None, None, 10);
    let needle = format!("\"trace_id\":\"{}\"", radix_32(span_a.trace_id).to_text());
    assert!(record_a.contains(&needle));
    assert!(record_b.contains(&needle));

    // The spans close: their entries leave the tables.
    remove_trace_id(&mut table_a, 1);
    assert_eq!(get_trace_id(&table_a, 1), None);
}
