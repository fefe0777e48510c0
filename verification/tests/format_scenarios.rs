//! End-to-end formatting scenarios with a frozen clock: the whole line is
//! compared byte for byte where the member order inside sub-objects is
//! deterministic, and as parsed JSON where it is not.

use jsonlog::callsite::CallsiteRegistry;
use jsonlog::ext::index_set_from_vec;
use jsonlog::fields::{FieldValue, Level};
use jsonlog::format::{EventFormatter, EventInfo, ProcessInfo, SpanInput};
use jsonlog::json::JsonValue;
use jsonlog::timefmt::Timestamp;
use jsonlog::visitors::EventField;

// 2024-01-15T12:00:00Z
const FROZEN_SECS: u64 = 1705320000;

fn frozen_now() -> Timestamp {
    Timestamp { secs: FROZEN_SECS, micros: 0 }
}

fn default_pinfo() -> ProcessInfo {
    ProcessInfo {
        pid: 1234,
        thread_id: 42,
        thread_name: None,
        task_id: None,
        trace_id: None,
    }
}

fn extract_names() -> indexmap::IndexSet<String> {
    index_set_from_vec(vec![
        "request_id".to_string(),
        "session_id".to_string(),
        "conn_id".to_string(),
    ])
}

fn field(index: usize, name: &str, value: FieldValue) -> EventField {
    EventField { index, name: name.to_string(), value }
}

fn bare_event(fields: Vec<EventField>) -> EventInfo {
    EventInfo {
        callsite: 7,
        level: Level::Info,
        target: "svc".to_string(),
        module: None,
        file: None,
        line: None,
        fields,
    }
}

fn render(
    event: &EventInfo,
    spans: &Vec<SpanInput>,
    pinfo: &ProcessInfo,
    registry: &CallsiteRegistry,
) -> String {
    let names = extract_names();
    let mut formatter = EventFormatter::new();
    formatter.format(&frozen_now(), event, spans, pinfo, registry, &names);
    formatter.buffer().to_string()
}

#[test]
fn bare_event_no_spans() {
    let registry = CallsiteRegistry::new();
    let event = bare_event(vec![field(0, "message", FieldValue::Str("hello".to_string()))]);
    let line = render(&event, &vec![], &default_pinfo(), &registry);
    assert_eq!(
        line,
        "{\"timestamp\":\"2024-01-15T12:00:00.000000Z\",\"level\":\"INFO\",\"message\":\"hello\",\"spans\":{},\"process_id\":1234,\"thread_id\":42,\"target\":\"svc\"}\n"
    );
}

#[test]
fn dedup_at_call_site() {
    // Visited as tracing hands them in: the implicit message first, then the
    // named fields, then the explicit message, which is last and wins.
    let mut registry = CallsiteRegistry::new();
    let names: Vec<String> = vec![
        "message".to_string(),
        "a".to_string(),
        "a".to_string(),
        "a".to_string(),
        "message".to_string(),
    ];
    assert!(registry.register_callsite(7, true, &names));
    let event = bare_event(vec![
        field(0, "message", FieldValue::Str("m2".to_string())),
        field(1, "a", FieldValue::I64(1)),
        field(2, "a", FieldValue::I64(2)),
        field(3, "a", FieldValue::I64(3)),
        field(4, "message", FieldValue::Str("m1".to_string())),
    ]);
    let line = render(&event, &vec![], &default_pinfo(), &registry);
    let parsed: serde_json::Value = serde_json::from_str(line.trim_end()).expect("valid JSON");
    assert_eq!(parsed["message"], serde_json::Value::String("m1".to_string()));
    let expected_fields: serde_json::Value = serde_json::from_str("{\"a\":3}").unwrap();
    assert_eq!(parsed["fields"], expected_fields);
}

#[test]
fn nested_spans_extract() {
    let mut registry = CallsiteRegistry::new();
    // Two span call sites get ids 1 and 2 in registration order.
    assert!(registry.register_callsite(100, false, &vec![]));
    assert!(registry.register_callsite(101, false, &vec![]));
    let spans = vec![
        SpanInput {
            name: "outer".to_string(),
            callsite: 100,
            fields: vec![("request_id".to_string(), JsonValue::Str("r".to_string()))],
        },
        SpanInput {
            name: "inner".to_string(),
            callsite: 101,
            fields: vec![
                ("request_id".to_string(), JsonValue::Str("r2".to_string())),
                ("x".to_string(), JsonValue::I64(1)),
            ],
        },
    ];
    let event = bare_event(vec![field(0, "message", FieldValue::Str("go".to_string()))]);
    let line = render(&event, &spans, &default_pinfo(), &registry);
    let parsed: serde_json::Value = serde_json::from_str(line.trim_end()).expect("valid JSON");
    let expected_spans: serde_json::Value =
        serde_json::from_str("{\"outer#1\":{\"request_id\":\"r\"},\"inner#2\":{\"request_id\":\"r2\",\"x\":1}}").unwrap();
    assert_eq!(parsed["spans"], expected_spans);
    let expected_extract: serde_json::Value = serde_json::from_str("{\"request_id\":\"r2\"}").unwrap();
    assert_eq!(parsed["extract"], expected_extract);
}

#[test]
fn same_name_different_sites() {
    let mut registry = CallsiteRegistry::new();
    assert!(registry.register_callsite(200, false, &vec![]));
    assert!(registry.register_callsite(201, false, &vec![]));
    let spans = vec![
        SpanInput { name: "handler".to_string(), callsite: 200, fields: vec![] },
        SpanInput { name: "handler".to_string(), callsite: 201, fields: vec![] },
    ];
    let event = bare_event(vec![field(0, "message", FieldValue::Str("hi".to_string()))]);
    let line = render(&event, &spans, &default_pinfo(), &registry);
    let parsed: serde_json::Value = serde_json::from_str(line.trim_end()).expect("valid JSON");
    let spans_obj = parsed["spans"].as_object().expect("spans object");
    assert_eq!(spans_obj.len(), 2);
    assert!(spans_obj.contains_key("handler#1"));
    assert!(spans_obj.contains_key("handler#2"));
}

#[test]
fn u128_overflow_as_string() {
    let registry = CallsiteRegistry::new();
    let event = bare_event(vec![field(0, "big", FieldValue::U128(u128::MAX))]);
    let line = render(&event, &vec![], &default_pinfo(), &registry);
    let parsed: serde_json::Value = serde_json::from_str(line.trim_end()).expect("valid JSON");
    assert_eq!(
        parsed["fields"]["big"],
        serde_json::Value::String("340282366920938463463374607431768211455".to_string())
    );
    assert_eq!(parsed["message"], serde_json::Value::String("".to_string()));
}

#[test]
fn float_fields_are_numbers() {
    let registry = CallsiteRegistry::new();
    let event = bare_event(vec![
        field(0, "x", FieldValue::Float(Some("2.5".to_string()))),
        field(1, "y", FieldValue::Float(None)),
    ]);
    let line = render(&event, &vec![], &default_pinfo(), &registry);
    let parsed: serde_json::Value = serde_json::from_str(line.trim_end()).expect("valid JSON");
    assert_eq!(parsed["fields"]["x"], serde_json::Value::from(2.5f64));
    assert_eq!(parsed["fields"]["y"], serde_json::Value::Null);
}

#[test]
fn missing_message() {
    let registry = CallsiteRegistry::new();
    let event = bare_event(vec![field(0, "a", FieldValue::I64(1))]);
    let line = render(&event, &vec![], &default_pinfo(), &registry);
    let parsed: serde_json::Value = serde_json::from_str(line.trim_end()).expect("valid JSON");
    assert_eq!(parsed["message"], serde_json::Value::String("".to_string()));
    let expected_fields: serde_json::Value = serde_json::from_str("{\"a\":1}").unwrap();
    assert_eq!(parsed["fields"], expected_fields);
}

#[test]
fn process_id_suppressed_for_init() {
    let registry = CallsiteRegistry::new();
    let event = bare_event(vec![field(0, "message", FieldValue::Str("x".to_string()))]);
    let mut pinfo = default_pinfo();
    pinfo.pid = 1;
    let line = render(&event, &vec![], &pinfo, &registry);
    let parsed: serde_json::Value = serde_json::from_str(line.trim_end()).expect("valid JSON");
    assert!(parsed.as_object().unwrap().get("process_id").is_none());
    let mut pinfo2 = default_pinfo();
    pinfo2.pid = 2;
    let line2 = render(&event, &vec![], &pinfo2, &registry);
    let parsed2: serde_json::Value = serde_json::from_str(line2.trim_end()).expect("valid JSON");
    assert_eq!(parsed2["process_id"], serde_json::Value::from(2u64));
}

#[test]
fn module_suppressed_when_equal_to_target() {
    let registry = CallsiteRegistry::new();
    let mut event = bare_event(vec![field(0, "message", FieldValue::Str("x".to_string()))]);
    event.module = Some("svc".to_string());
    let line = render(&event, &vec![], &default_pinfo(), &registry);
    let parsed: serde_json::Value = serde_json::from_str(line.trim_end()).expect("valid JSON");
    assert!(parsed.as_object().unwrap().get("module").is_none());
    event.module = Some("svc::inner".to_string());
    let line2 = render(&event, &vec![], &default_pinfo(), &registry);
    let parsed2: serde_json::Value = serde_json::from_str(line2.trim_end()).expect("valid JSON");
    assert_eq!(parsed2["module"], serde_json::Value::String("svc::inner".to_string()));
}

#[test]
fn one_line_and_key_order() {
    let mut registry = CallsiteRegistry::new();
    assert!(registry.register_callsite(100, false, &vec![]));
    let spans = vec![SpanInput {
        name: "s".to_string(),
        callsite: 100,
        fields: vec![("conn_id".to_string(), JsonValue::U64(9))],
    }];
    let mut event = bare_event(vec![
        field(0, "message", FieldValue::Str("line\nbreak".to_string())),
        field(1, "a", FieldValue::Bool(true)),
    ]);
    event.module = Some("other".to_string());
    event.file = Some("svc/lib.rs".to_string());
    event.line = Some(10);
    let mut pinfo = default_pinfo();
    pinfo.thread_name = Some("worker-1".to_string());
    pinfo.task_id = Some(14);
    pinfo.trace_id = Some("4bf92f3577b34da6a3ce929d0e0e4736".to_string());
    let line = render(&event, &spans, &pinfo, &registry);
    // Exactly one newline, at the end, even with a newline inside a value.
    assert_eq!(line.bytes().filter(|b| *b == b'\n').count(), 1);
    assert!(line.ends_with('\n'));
    let parsed: serde_json::Value = serde_json::from_str(line.trim_end()).expect("valid JSON");
    assert_eq!(parsed.as_object().unwrap().len(), 14);
    // Key order is a property of the text itself.
    let keys = vec![
        "timestamp", "level", "message", "fields", "spans", "process_id", "thread_id",
        "thread_name", "task_id", "target", "module", "src", "trace_id", "extract",
    ];
    let mut last_pos = 0;
    for k in keys {
        let marker = format!("\"{k}\":");
        let pos = line.find(&marker).expect("key present");
        assert!(pos >= last_pos, "{k} out of order");
        last_pos = pos;
    }
    assert_eq!(parsed["message"], serde_json::Value::String("line\nbreak".to_string()));
    assert_eq!(parsed["src"], serde_json::Value::String("svc/lib.rs:10".to_string()));
    assert_eq!(parsed["task_id"], serde_json::Value::String("14".to_string()));
    assert_eq!(parsed["thread_name"], serde_json::Value::String("worker-1".to_string()));
}

#[test]
fn worker_thread_name_suppressed() {
    let registry = CallsiteRegistry::new();
    let event = bare_event(vec![field(0, "message", FieldValue::Str("x".to_string()))]);
    let mut pinfo = default_pinfo();
    pinfo.thread_name = Some("tokio-runtime-worker".to_string());
    let line = render(&event, &vec![], &pinfo, &registry);
    let parsed: serde_json::Value = serde_json::from_str(line.trim_end()).expect("valid JSON");
    assert!(parsed.as_object().unwrap().get("thread_name").is_none());
}
