//! The value-coercion policy and the JSON writers: escaping, decimal
//! rendering, hex of byte slices, 128-bit fallbacks, and the fallback line.

use jsonlog::fields::{coerce, hex_string, i128_to_string, u128_to_string, FieldValue, Level};
use jsonlog::format::format_fallback;
use jsonlog::json::{jclone, write_i64, write_scalar, write_u64, JsonValue};
use jsonlog::timefmt::Timestamp;

fn scalar_text(v: &JsonValue) -> String {
    let mut buf = String::new();
    write_scalar(&mut buf, v);
    buf
}

#[test]
fn coercion_policy() {
    assert_eq!(coerce(&FieldValue::I64(-5)), JsonValue::I64(-5));
    assert_eq!(coerce(&FieldValue::U64(7)), JsonValue::U64(7));
    assert_eq!(coerce(&FieldValue::Bool(true)), JsonValue::Bool(true));
    assert_eq!(coerce(&FieldValue::I128(12)), JsonValue::I64(12));
    assert_eq!(coerce(&FieldValue::I128(i128::MIN)), JsonValue::Str("-170141183460469231731687303715884105728".to_string()));
    assert_eq!(coerce(&FieldValue::U128(12)), JsonValue::U64(12));
    assert_eq!(
        coerce(&FieldValue::U128(u128::MAX)),
        JsonValue::Str("340282366920938463463374607431768211455".to_string())
    );
    assert_eq!(coerce(&FieldValue::Bytes(vec![0xde, 0xad, 0xbe, 0xef])), JsonValue::Str("deadbeef".to_string()));
    assert_eq!(coerce(&FieldValue::Str("s".to_string())), JsonValue::Str("s".to_string()));
    assert_eq!(coerce(&FieldValue::Debug("D".to_string())), JsonValue::Str("D".to_string()));
    assert_eq!(coerce(&FieldValue::Error("E".to_string())), JsonValue::Str("E".to_string()));
    assert_eq!(coerce(&FieldValue::Float(Some("1.5".to_string()))), JsonValue::Num("1.5".to_string()));
    assert_eq!(coerce(&FieldValue::Float(None)), JsonValue::Null);
}

#[test]
fn decimal_rendering() {
    let mut buf = String::new();
    write_u64(&mut buf, 0);
    assert_eq!(buf, "0");
    let mut buf = String::new();
    write_u64(&mut buf, 18446744073709551615);
    assert_eq!(buf, "18446744073709551615");
    let mut buf = String::new();
    write_i64(&mut buf, i64::MIN);
    assert_eq!(buf, "-9223372036854775808");
    assert_eq!(u128_to_string(0), "0");
    assert_eq!(i128_to_string(-1), "-1");
}

#[test]
fn hex_encoding() {
    assert_eq!(hex_string(&vec![]), "");
    assert_eq!(hex_string(&vec![0x00, 0x0f, 0xa0, 0xff]), "000fa0ff");
}

#[test]
fn string_escaping_matches_json() {
    // Every escape the writer produces must round-trip through a JSON parser
    // back to the text that went in.
    let cases = vec![
        "plain".to_string(),
        "with \"quotes\" and \\backslash\\".to_string(),
        "control\u{1}\u{8}\t\n\u{c}\r\u{1f}chars".to_string(),
        "unicode \u{410} \u{1F600}".to_string(),
        "".to_string(),
    ];
    for s in cases {
        let text = scalar_text(&JsonValue::Str(s.clone()));
        let parsed: serde_json::Value = serde_json::from_str(&text).expect("valid JSON string");
        assert_eq!(parsed, serde_json::Value::String(s));
    }
}

#[test]
fn scalar_rendering() {
    assert_eq!(scalar_text(&JsonValue::Null), "null");
    assert_eq!(scalar_text(&JsonValue::Bool(true)), "true");
    assert_eq!(scalar_text(&JsonValue::Bool(false)), "false");
    assert_eq!(scalar_text(&JsonValue::I64(-12)), "-12");
    assert_eq!(scalar_text(&JsonValue::U64(12)), "12");
    assert_eq!(scalar_text(&JsonValue::Num("2.25".to_string())), "2.25");
    assert_eq!(jclone(&JsonValue::Str("x".to_string())), JsonValue::Str("x".to_string()));
}

#[test]
fn level_strings() {
    assert_eq!(Level::Trace.as_str(), "TRACE");
    assert_eq!(Level::Debug.as_str(), "DEBUG");
    assert_eq!(Level::Info.as_str(), "INFO");
    assert_eq!(Level::Warn.as_str(), "WARN");
    assert_eq!(Level::Error.as_str(), "ERROR");
}

#[test]
fn fallback_line_shape() {
    let now = Timestamp { secs: 1705320000, micros: 1 };
    let line = format_fallback(&now, "boom", "Event { .. }");
    assert!(line.ends_with('\n'));
    assert_eq!(line.bytes().filter(|b| *b == b'\n').count(), 1);
    let parsed: serde_json::Value = serde_json::from_str(line.trim_end()).expect("valid JSON");
    assert_eq!(parsed["timestamp"], serde_json::Value::String("2024-01-15T12:00:00.000001Z".to_string()));
    assert_eq!(parsed["level"], serde_json::Value::String("ERROR".to_string()));
    assert_eq!(parsed["message"], serde_json::Value::String("cannot log event: boom".to_string()));
    assert_eq!(parsed["fields"]["event"], serde_json::Value::String("Event { .. }".to_string()));
}
