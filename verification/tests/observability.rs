use zion::hex::{hex_val, parse_hex_fixed, read_u64_be, write_hex, write_hex_u64_be};
use zion::observability::{json_escape, panic_line, panic_record, parse_traceparent};
use zion::observability::{render_counters, Counters, LogFormat, Place};
use zion::page::Page;

const VALID: &[u8] = b"00-0af7651916cd43dd8448eb211c80319c-b7ad6b7169203331-01";

#[test]
fn parses_canonical_rfc_example() {
    let ctx = parse_traceparent(VALID).expect("valid example must parse");
    let mut hex = [0u8; 32];
    ctx.write_trace_id_hex(&mut hex);
    assert_eq!(&hex, b"0af7651916cd43dd8448eb211c80319c");
    let mut hex16 = [0u8; 16];
    ctx.write_span_id_hex(&mut hex16);
    assert_eq!(&hex16, b"b7ad6b7169203331");
    assert!(ctx.is_sampled());
}

#[test]
fn rejects_too_short() {
    assert!(parse_traceparent(b"00-foo").is_none());
    assert!(parse_traceparent(b"").is_none());
}

#[test]
fn rejects_wrong_version() {
    let ff = b"ff-0af7651916cd43dd8448eb211c80319c-b7ad6b7169203331-01";
    assert!(parse_traceparent(ff).is_none());
}

#[test]
fn rejects_non_hex_in_trace_id() {
    let bad = b"00-zzzzzzzzzzzzzzzzzzzzzzzzzzzzzzzz-b7ad6b7169203331-01";
    assert!(parse_traceparent(bad).is_none());
}

#[test]
fn rejects_zero_trace_id() {
    let zero = b"00-00000000000000000000000000000000-b7ad6b7169203331-01";
    assert!(parse_traceparent(zero).is_none());
}

#[test]
fn rejects_zero_span_id() {
    let zero = b"00-0af7651916cd43dd8448eb211c80319c-0000000000000000-01";
    assert!(parse_traceparent(zero).is_none());
}

#[test]
fn rejects_missing_separator() {
    let nodash = b"00:0af7651916cd43dd8448eb211c80319c-b7ad6b7169203331-01";
    assert!(parse_traceparent(nodash).is_none());
}

#[test]
fn flags_unsampled() {
    let unsampled = b"00-0af7651916cd43dd8448eb211c80319c-b7ad6b7169203331-00";
    let ctx = parse_traceparent(unsampled).expect("must parse");
    assert!(!ctx.is_sampled());
}

#[test]
fn write_hex_roundtrips() {
    let bytes = [0xde, 0xad, 0xbe, 0xef];
    let mut out = [0u8; 8];
    write_hex(&bytes, &mut out);
    assert_eq!(&out, b"deadbeef");
    assert_eq!(parse_hex_fixed::<4>(&out), Some(bytes));
}

#[test]
fn json_escape_handles_quotes_and_control() {
    assert_eq!(json_escape("hello"), "hello");
    assert_eq!(json_escape(r#"a "b" c"#), r#"a \"b\" c"#);
    assert_eq!(json_escape("a\\b"), "a\\\\b");
    assert_eq!(json_escape("a\nb"), "a\\nb");
    assert_eq!(json_escape("a\tb"), "a\\tb");
    assert_eq!(json_escape("héllo"), "héllo");
    assert_eq!(json_escape("\x01"), "\\u0001");
}

#[test]
fn render_counters_emits_all_five() {
    let mut out = Page::new();
    render_counters(
        &Counters {
            panics: 7,
            audit_events: 13,
            audit_events_dropped: 0,
            traces_emitted: 0,
            traces_invalid: 0,
        },
        &mut out,
    );
    let text = String::from_utf8(out.finish().to_vec()).unwrap();
    assert!(text.contains("zion_panics_total 7"));
    assert!(text.contains("zion_audit_events_total 13"));
    assert!(text.contains("zion_audit_events_dropped_total"));
    assert!(text.contains("zion_traces_emitted_total"));
    assert!(text.contains("zion_traces_invalid_total"));
}

#[test]
fn hex_digits_of_either_case() {
    assert_eq!(hex_val(b'a'), Some(10));
    assert_eq!(hex_val(b'F'), Some(15));
    assert_eq!(hex_val(b'g'), None);
    assert_eq!(parse_hex_fixed::<2>(b"0Aff"), Some([10, 255]));
    assert_eq!(parse_hex_fixed::<2>(b"0Af"), None);
    let mut out = [0u8; 18];
    write_hex_u64_be(0x0102_0304_0506_0708, &mut out, 2);
    assert_eq!(&out[2..], b"0102030405060708");
    assert_eq!(read_u64_be(&[1, 2, 3, 4, 5, 6, 7, 8], 0), 0x0102_0304_0506_0708);
}

#[test]
fn panic_records_are_one_json_line() {
    assert_eq!(
        panic_record(12, "main", "src/a.rs:3", "a \"b\"\n"),
        "{\"ts_us\":12,\"level\":\"FATAL\",\"event\":\"panic\",\"thread\":\"main\",\"location\":\"src/a.rs:3\",\"msg\":\"a \\\"b\\\"\\n\"}\n"
    );
}

#[test]
fn log_formats_by_name() {
    assert!(matches!(LogFormat::from_str("json"), LogFormat::Json));
    assert!(!matches!(LogFormat::from_str("text"), LogFormat::Json));
    assert!(!matches!(LogFormat::from_str("anything"), LogFormat::Json));
}

#[test]
fn a_panic_of_which_little_is_known() {
    let line = panic_line(7, &None, &None, &None);
    assert_eq!(
        line,
        "{\"ts_us\":7,\"level\":\"FATAL\",\"event\":\"panic\",\"thread\":\"<unnamed>\",\"location\":\"<unknown location>\",\"msg\":\"<non-string panic payload>\"}\n"
    );
    let place = Place {
        file: "a.rs".to_string(),
        line: 3,
        column: 9,
    };
    let line = panic_line(7, &Some("w".to_string()), &Some(place), &Some("b\"".to_string()));
    assert!(line.contains("\"thread\":\"w\",\"location\":\"a.rs:3:9\",\"msg\":\"b\\\"\""));
}
