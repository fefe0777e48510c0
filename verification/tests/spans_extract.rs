//! Span field stores, the extract buffer, and a full field-collection
//! scenario driven through the layer hooks with a frozen clock and an
//! in-memory writer.

use std::sync::Mutex;

use jsonlog::callsite::CallsiteRegistry;
use jsonlog::ext::index_set_from_vec;
use jsonlog::extract::ExtractedSpanFields;
use jsonlog::fields::{FieldValue, Level};
use jsonlog::format::{EventFormatter, EventInfo, JsonLoggingLayer, MakeWriter, ProcessInfo, SpanInput};
use jsonlog::json::JsonValue;
use jsonlog::spanfields::SpanFields;
use jsonlog::timefmt::{Clock, Timestamp};
use jsonlog::visitors::EventField;

struct TestClock {
    now: Timestamp,
}

impl Clock for TestClock {
    fn now(&self) -> Timestamp {
        self.now
    }
}

struct BufferWriter {
    buffer: Mutex<String>,
}

impl MakeWriter for BufferWriter {
    fn write_line(&self, line: &str) {
        self.buffer.lock().expect("poisoned").push_str(line);
    }
}

#[test]
fn span_fields_last_write_wins() {
    let mut store = SpanFields::new();
    store.record_fields(&vec![
        ("x".to_string(), FieldValue::I64(40)),
        ("x".to_string(), FieldValue::I64(41)),
        ("x".to_string(), FieldValue::I64(42)),
    ]);
    let entries = store.entries();
    assert_eq!(entries.len(), 1);
    assert_eq!(entries[0].0, "x");
    assert_eq!(entries[0].1, JsonValue::I64(42));
    // A later record call overwrites again.
    store.record_fields(&vec![("x".to_string(), FieldValue::I64(7))]);
    let entries = store.entries();
    assert_eq!(entries.len(), 1);
    assert_eq!(entries[0].1, JsonValue::I64(7));
}

#[test]
fn extract_buffer_overwrites_and_orders() {
    let names = index_set_from_vec(vec![
        "request_id".to_string(),
        "session_id".to_string(),
        "conn_id".to_string(),
    ]);
    let mut ex = ExtractedSpanFields::new(&names);
    assert!(!ex.has_values());
    ex.set("nope", JsonValue::I64(1));
    assert!(!ex.has_values());
    ex.set("conn_id", JsonValue::U64(5));
    ex.set("request_id", JsonValue::Str("r1".to_string()));
    ex.set("request_id", JsonValue::Str("r2".to_string()));
    assert!(ex.has_values());
    let entries = ex.entries();
    // Configured-name order, last write wins, untouched slots absent.
    assert_eq!(entries.len(), 2);
    assert_eq!(entries[0].0, "request_id");
    assert_eq!(entries[0].1, JsonValue::Str("r2".to_string()));
    assert_eq!(entries[1].0, "conn_id");
    assert_eq!(entries[1].1, JsonValue::U64(5));
}

#[test]
fn test_field_collection() {
    // Two same-named spans at distinct call sites, the inner one recorded
    // with repeated fields, and an event with repeated fields plus both an
    // implicit and an explicit message.
    let clock = TestClock { now: Timestamp { secs: 1705320000, micros: 250 } };
    let writer = BufferWriter { buffer: Mutex::new(String::new()) };
    let mut layer = JsonLoggingLayer::new(clock, writer, vec!["x".to_string()]);

    // Span call sites first, then the event call site with its field names.
    assert!(layer.register_callsite(1000, false, &vec![]));
    assert!(layer.register_callsite(1001, false, &vec![]));
    let event_fields: Vec<String> = vec![
        "message".to_string(),
        "a".to_string(),
        "a".to_string(),
        "a".to_string(),
        "message".to_string(),
    ];
    assert!(layer.register_callsite(1002, true, &event_fields));

    let outer = layer.on_new_span(&vec![("x".to_string(), FieldValue::I64(24))]);
    let inner = layer.on_new_span(&vec![
        ("x".to_string(), FieldValue::I64(40)),
        ("x".to_string(), FieldValue::I64(41)),
        ("x".to_string(), FieldValue::I64(42)),
    ]);

    let spans = vec![
        SpanInput { name: "some_span".to_string(), callsite: 1000, fields: outer.entries() },
        SpanInput { name: "some_span".to_string(), callsite: 1001, fields: inner.entries() },
    ];
    let event = EventInfo {
        callsite: 1002,
        level: Level::Error,
        target: "proxy::logging::tests".to_string(),
        module: None,
        file: Some("proxy/src/logging.rs".to_string()),
        line: Some(24),
        fields: vec![
            EventField { index: 0, name: "message".to_string(), value: FieldValue::Str("implicit message field".to_string()) },
            EventField { index: 1, name: "a".to_string(), value: FieldValue::I64(1) },
            EventField { index: 2, name: "a".to_string(), value: FieldValue::I64(2) },
            EventField { index: 3, name: "a".to_string(), value: FieldValue::I64(3) },
            EventField { index: 4, name: "message".to_string(), value: FieldValue::Str("explicit message field".to_string()) },
        ],
    };
    let pinfo = ProcessInfo {
        pid: 4321,
        thread_id: 9,
        thread_name: Some("logging::tests::test_field_collection".to_string()),
        task_id: None,
        trace_id: None,
    };
    let mut formatter = EventFormatter::new();
    layer.on_event(&mut formatter, &event, &spans, &pinfo);

    let written = layer.writer.buffer.lock().expect("poisoned").clone();
    let actual: serde_json::Value = serde_json::from_str(written.trim_end()).expect("valid JSON");
    let expected: serde_json::Value = serde_json::from_str(
        "{\
            \"timestamp\":\"2024-01-15T12:00:00.000250Z\",\
            \"level\":\"ERROR\",\
            \"message\":\"explicit message field\",\
            \"fields\":{\"a\":3},\
            \"spans\":{\"some_span#1\":{\"x\":24},\"some_span#2\":{\"x\":42}},\
            \"process_id\":4321,\
            \"thread_id\":9,\
            \"thread_name\":\"logging::tests::test_field_collection\",\
            \"target\":\"proxy::logging::tests\",\
            \"src\":\"proxy/src/logging.rs:24\",\
            \"extract\":{\"x\":42}\
        }",
    )
    .expect("valid JSON");
    assert_eq!(actual, expected);
}

#[test]
fn duplicate_extract_keys_collapse() {
    let names = index_set_from_vec(vec!["a".to_string(), "b".to_string(), "a".to_string()]);
    let mut ex = ExtractedSpanFields::new(&names);
    ex.set("a", JsonValue::I64(1));
    ex.set("b", JsonValue::I64(2));
    let entries = ex.entries();
    assert_eq!(entries.len(), 2);
    assert_eq!(entries[0].0, "a");
    assert_eq!(entries[1].0, "b");
}

#[test]
fn reusable_formatter_resets() {
    let registry = CallsiteRegistry::new();
    let names = index_set_from_vec(vec!["request_id".to_string()]);
    let pinfo = ProcessInfo { pid: 2, thread_id: 3, thread_name: None, task_id: None, trace_id: None };
    let event = EventInfo {
        callsite: 5,
        level: Level::Info,
        target: "t".to_string(),
        module: None,
        file: None,
        line: None,
        fields: vec![],
    };
    let now = Timestamp { secs: 0, micros: 0 };
    let mut formatter = EventFormatter::new();
    formatter.format(&now, &event, &vec![], &pinfo, &registry, &names);
    let first = formatter.buffer().to_string();
    formatter.reset();
    formatter.format(&now, &event, &vec![], &pinfo, &registry, &names);
    assert_eq!(formatter.buffer(), first);
}
