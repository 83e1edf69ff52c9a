use zion::logging::{escape, format_error, format_info, format_json, format_warn, now, timestamp};

#[test]
fn now_returns_iso8601_format() {
    let ts = now();
    assert_eq!(ts.len(), 27, "timestamp length should be 27: {ts}");
    assert!(ts.ends_with('Z'), "should end with Z: {ts}");
    assert_eq!(&ts[4..5], "-", "YYYY-MM separator: {ts}");
    assert_eq!(&ts[7..8], "-", "MM-DD separator: {ts}");
    assert_eq!(&ts[10..11], "T", "date-time separator: {ts}");
    assert_eq!(&ts[13..14], ":", "HH:MM separator: {ts}");
    assert_eq!(&ts[16..17], ":", "MM:SS separator: {ts}");
    assert_eq!(&ts[19..20], ".", "SS.mmmmmm separator: {ts}");
}

#[test]
fn now_year_is_reasonable() {
    let ts = now();
    let year: u32 = ts[..4].parse().unwrap();
    assert!((2024..=2100).contains(&year), "year out of range: {year}");
}

#[test]
fn escape_handles_quotes_and_backslashes() {
    assert_eq!(escape(r#"hello "world""#), r#"hello \"world\""#);
    assert_eq!(escape(r"back\slash"), r"back\\slash");
}

#[test]
fn warn_plain_text_no_color() {
    let out = format_warn(false, false, "health", "upstream is DOWN");
    assert_eq!(out, "  warning: upstream is DOWN");
}

#[test]
fn warn_text_color_prefixes_amber_glyph() {
    let out = format_warn(false, true, "health", "upstream is DOWN");
    assert!(out.starts_with("  \x1b[1;38;5;220m⚠ warning:\x1b[0m"));
    assert!(out.ends_with("upstream is DOWN"));
}

#[test]
fn warn_json_mode_unchanged_by_color_flag() {
    for color in [false, true] {
        let out = format_warn(true, color, "health", "upstream is DOWN");
        assert!(out.contains(r#""level":"warn""#), "color={color}: {out}");
        assert!(out.contains(r#""event":"health""#), "color={color}: {out}");
        assert!(
            out.contains(r#""msg":"upstream is DOWN""#),
            "color={color}: {out}"
        );
        assert!(!out.contains("\x1b["), "color={color}: ANSI in JSON: {out}");
    }
}

#[test]
fn error_plain_text_no_color() {
    let out = format_error(false, false, "tls", "handshake failed");
    assert_eq!(out, "  error: handshake failed");
}

#[test]
fn error_text_color_prefixes_red_glyph() {
    let out = format_error(false, true, "tls", "handshake failed");
    assert!(out.starts_with("  \x1b[1;38;5;196m✖ error:\x1b[0m"));
    assert!(out.ends_with("handshake failed"));
}

#[test]
fn error_json_mode_unchanged_by_color_flag() {
    for color in [false, true] {
        let out = format_error(true, color, "tls", "handshake failed");
        assert!(out.contains(r#""level":"error""#), "color={color}: {out}");
        assert!(!out.contains("\x1b["), "color={color}: ANSI in JSON: {out}");
    }
}

#[test]
fn json_escapes_quotes_in_message() {
    let out = format_warn(true, false, "evt", r#"got "quoted" payload"#);
    assert!(out.contains(r#""msg":"got \"quoted\" payload""#));
}

#[test]
fn timestamps_are_exact() {
    assert_eq!(timestamp(0), "1970-01-01T00:00:00.000000Z");
    assert_eq!(timestamp(1_709_210_096_000_007), "2024-02-29T12:34:56.000007Z");
}

#[test]
fn json_lines_are_exact() {
    assert_eq!(
        format_json("T", "info", "e", "a\\b"),
        r#"{"ts":"T","level":"info","event":"e","msg":"a\\b"}"#
    );
    let out = format_info(true, "e", "m");
    assert!(out.starts_with("{\"ts\":\"20") && out.ends_with("\"msg\":\"m\"}"));
}

#[test]
fn json_lines_hold_no_raw_control_character() {
    assert_eq!(escape("a\nb\tc\u{1}"), "a\\nb\\tc\\u0001");
    let out = format_json("T", "warn", "e\"v", "two\nlines \\ \"quoted\"\r\u{7f}é");
    assert_eq!(
        out,
        "{\"ts\":\"T\",\"level\":\"warn\",\"event\":\"e\\\"v\",\"msg\":\"two\\nlines \\\\ \\\"quoted\\\"\\r\u{7f}é\"}"
    );
    assert!(out.chars().all(|c| c >= ' '));
}
