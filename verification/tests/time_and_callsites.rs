//! The RFC 3339 formatter held against chrono on many instants, the system
//! clock, and the call-site registry: skip masks, ids, and refusal of call
//! sites with too many fields.

use jsonlog::callsite::{compute_skip_mask, CallsiteRegistry, SkippedFieldIndices};
use jsonlog::timefmt::{rfc3339_string, Clock, RealClock, Timestamp, MAX_UNIX_SECS};

fn chrono_rfc3339(secs: u64, micros: u32) -> String {
    let t = chrono::DateTime::from_timestamp(secs as i64, micros * 1000).expect("in range");
    t.to_rfc3339_opts(chrono::SecondsFormat::Micros, true)
}

#[test]
fn rfc3339_matches_chrono() {
    let cases: Vec<(u64, u32)> = vec![
        (0, 0),
        (1, 1),
        (86399, 999999),
        (86400, 0),
        (951782399, 5),        // 2000-02-28T23:59:59, before a century leap day
        (951782400, 0),        // 2000-02-29T00:00:00
        (1078012800, 123456),  // 2004-02-29
        (1705320000, 250),
        (4102444799, 999999),  // 9999-style far future boundary checks below
        (2147483647, 7),
        (MAX_UNIX_SECS, 999999),
    ];
    for (secs, micros) in cases {
        let ours = rfc3339_string(&Timestamp { secs, micros });
        assert_eq!(ours, chrono_rfc3339(secs, micros), "secs={secs} micros={micros}");
    }
    // A dense sweep across day, month and year boundaries.
    let mut secs: u64 = 1072915195; // moments before 2004-01-01
    while secs < 1072915195 + 20 {
        assert_eq!(rfc3339_string(&Timestamp { secs, micros: 0 }), chrono_rfc3339(secs, 0));
        secs += 1;
    }
}

#[test]
fn real_clock_is_representable() {
    let t = RealClock.now();
    assert!(t.micros < 1_000_000);
    let s = rfc3339_string(&t);
    // chrono must agree on the instant the clock produced.
    assert_eq!(s, chrono_rfc3339(t.secs, t.micros));
}

#[test]
fn timestamp_clamps() {
    let t = Timestamp::from_unix(-5, 3);
    assert_eq!(t.secs, 0);
    let t = Timestamp::from_unix(i64::MAX, 1_500_000);
    assert_eq!(t.secs, MAX_UNIX_SECS);
    assert_eq!(t.micros, 999_999);
    let t = Timestamp::from_unix(77, 8);
    assert_eq!((t.secs, t.micros), (77, 8));
}

#[test]
fn skip_mask_marks_all_but_last() {
    let names: Vec<String> = vec![
        "a".to_string(),
        "b".to_string(),
        "a".to_string(),
        "c".to_string(),
        "a".to_string(),
    ];
    let mask = compute_skip_mask(&names).expect("few fields");
    assert!(mask.contains(0));
    assert!(!mask.contains(1));
    assert!(mask.contains(2));
    assert!(!mask.contains(3));
    assert!(!mask.contains(4));
    assert!(!mask.contains(63));
    assert!(!mask.contains(100));
}

#[test]
fn skip_mask_empty_without_duplicates() {
    let names: Vec<String> = vec!["a".to_string(), "b".to_string()];
    let mask = compute_skip_mask(&names).expect("few fields");
    assert!(mask.is_empty());
    let mut m = SkippedFieldIndices::empty();
    assert!(m.is_empty());
    m.push(3);
    assert!(m.contains(3));
    assert!(!m.contains(2));
}

#[test]
fn too_many_fields_refused() {
    let names: Vec<String> = (0..65).map(|i| format!("f{i}")).collect();
    assert!(compute_skip_mask(&names).is_none());
    let mut registry = CallsiteRegistry::new();
    assert!(!registry.register_callsite(1, true, &names));
    // The refused call site got no mask and no id.
    assert_eq!(registry.skip_mask(1), 0);
    assert_eq!(registry.span_id(1), 0);
}

#[test]
fn callsite_ids_are_stable_and_start_at_one() {
    let mut registry = CallsiteRegistry::new();
    let a = registry.callsite_id(11);
    let b = registry.callsite_id(22);
    let a2 = registry.callsite_id(11);
    assert_eq!(a, 1);
    assert_eq!(b, 2);
    assert_eq!(a2, 1);
    assert_eq!(registry.span_id(22), 2);
    assert_eq!(registry.span_id(33), 0);
}

#[test]
fn event_callsites_get_ids_too() {
    let mut registry = CallsiteRegistry::new();
    let event_names: Vec<String> = vec!["message".to_string()];
    assert!(registry.register_callsite(9, true, &event_names));
    assert!(registry.register_callsite(10, false, &vec![]));
    // The event call site consumed the first id; the span gets the next one.
    assert_eq!(registry.span_id(9), 1);
    assert_eq!(registry.span_id(10), 2);
}

#[test]
fn event_registration_stores_mask() {
    let mut registry = CallsiteRegistry::new();
    let names: Vec<String> = vec!["x".to_string(), "x".to_string()];
    assert!(registry.register_callsite(5, true, &names));
    let mask = registry.skip_mask(5);
    assert_eq!(mask & 1, 1);
    assert_eq!(mask & 2, 0);
    // No duplicates: nothing stored.
    let clean: Vec<String> = vec!["x".to_string(), "y".to_string()];
    assert!(registry.register_callsite(6, true, &clean));
    assert_eq!(registry.skip_mask(6), 0);
}
