use hyper::http::uri::Authority;
use hyper::HeaderMap;
use zion::proxy::{bad_gateway, connect_target, default_port, gateway_timeout, is_idempotent};
use zion::proxy::{answer_upgrade, prepare_upgrade, UpgradeAnswer};
use zion::proxy::{is_tls_upstream, prepare_request, reply_without_answer, stream_error};
use zion::proxy::{apply_forwarding_hygiene, mark_streaming, upgrade_reply};
use zion::proxy::{Attempt, Failover, HttpVersion, Prepared, Sent, XffMode};
use zion::headers::is_header_text;

fn headers(fields: &[(&'static str, &str)]) -> HeaderMap {
    let mut m = HeaderMap::new();
    for (name, value) in fields {
        m.append(*name, value.parse().unwrap());
    }
    m
}

fn prepared(
    path: Option<&str>,
    fields: &[(&'static str, &str)],
    authority: &str,
    ip: Option<&str>,
    proto: &str,
    mode: XffMode,
) -> Prepared {
    prepare_request(path, headers(fields), "http", authority, ip, proto, mode).unwrap()
}

fn simple(ip: Option<&str>, proto: &str) -> Prepared {
    prepared(Some("/test"), &[], "127.0.0.1:8000", ip, proto, XffMode::Append)
}

#[test]
fn prepare_rewrites_uri() {
    let p = prepared(
        Some("/api/v1/users?page=2"),
        &[],
        "127.0.0.1:8000",
        None,
        "https",
        XffMode::Append,
    );
    assert_eq!(p.uri, "http://127.0.0.1:8000/api/v1/users?page=2");
}

#[test]
fn prepare_sets_http11() {
    let p = prepared(Some("/test"), &[], "127.0.0.1:8000", None, "https", XffMode::Append);
    assert_eq!(p.version, HttpVersion::Http11);
}

#[test]
fn prepare_removes_hop_by_hop_headers() {
    let p = prepared(
        Some("/test"),
        &[("host", "original.com"), ("connection", "keep-alive")],
        "127.0.0.1:8000",
        None,
        "https",
        XffMode::Append,
    );
    assert!(p.headers.get(hyper::header::HOST).is_none());
    assert!(p.headers.get(hyper::header::CONNECTION).is_none());
    assert_eq!(p.headers.get("x-forwarded-host").unwrap(), "original.com");
}

#[test]
fn prepare_adds_forwarding_headers() {
    let p = simple(Some("1.2.3.4"), "https");
    assert_eq!(p.headers.get("X-Forwarded-For").unwrap(), "1.2.3.4");
    assert_eq!(p.headers.get("X-Real-IP").unwrap(), "1.2.3.4");
    assert_eq!(p.headers.get("X-Forwarded-Proto").unwrap(), "https");
}

#[test]
fn prepare_http_proto() {
    let p = simple(None, "http");
    assert_eq!(p.headers.get("X-Forwarded-Proto").unwrap(), "http");
}

#[test]
fn prepare_no_forwarding_without_addr() {
    let p = simple(None, "https");
    assert!(p.headers.get("X-Forwarded-For").is_none());
    assert!(p.headers.get("X-Real-IP").is_none());
}

#[test]
fn prepare_ipv6_forwarding() {
    let p = simple(Some("::1"), "https");
    assert_eq!(p.headers.get("X-Forwarded-For").unwrap(), "::1");
}

#[test]
fn prepare_preserves_query_string() {
    let p = prepared(
        Some("/search?q=hello&page=1"),
        &[],
        "127.0.0.1:3000",
        None,
        "https",
        XffMode::Append,
    );
    assert_eq!(p.uri, "http://127.0.0.1:3000/search?q=hello&page=1");
}

#[test]
fn prepare_root_path_default() {
    let p = prepare_request(
        None,
        headers(&[]),
        "http",
        "127.0.0.1:8000",
        None,
        "https",
        XffMode::Append,
    );
    assert_eq!(p.unwrap().uri, "http://127.0.0.1:8000/");
}

#[test]
fn bad_gateway_returns_502() {
    assert_eq!(bad_gateway().status, 502);
}

fn spoofed(value: &str, ip: Option<&str>, mode: XffMode) -> Prepared {
    prepared(
        Some("/test"),
        &[("x-forwarded-for", value)],
        "127.0.0.1:8000",
        ip,
        "https",
        mode,
    )
}

fn xff_values(p: &Prepared) -> Vec<String> {
    p.headers
        .get_all("X-Forwarded-For")
        .iter()
        .map(|v| v.to_str().unwrap().to_string())
        .collect()
}

#[test]
fn xff_append_preserves_inbound_chain() {
    let p = spoofed("9.9.9.9", Some("1.2.3.4"), XffMode::Append);
    assert_eq!(
        xff_values(&p),
        vec!["9.9.9.9".to_string(), "1.2.3.4".to_string()]
    );
    assert_eq!(p.headers.get("X-Real-IP").unwrap(), "1.2.3.4");
}

#[test]
fn xff_rewrite_strips_spoofed_and_emits_single_entry() {
    let p = spoofed("9.9.9.9", Some("1.2.3.4"), XffMode::Rewrite);
    assert_eq!(xff_values(&p), vec!["1.2.3.4".to_string()]);
    assert_eq!(p.headers.get("X-Real-IP").unwrap(), "1.2.3.4");
}

#[test]
fn xff_rewrite_strips_multi_hop_spoofed_chain() {
    let p = spoofed("evil1, evil2, evil3", Some("203.0.113.7"), XffMode::Rewrite);
    assert_eq!(xff_values(&p), vec!["203.0.113.7".to_string()]);
}

#[test]
fn xff_drop_emits_no_xff() {
    let p = spoofed("9.9.9.9", Some("1.2.3.4"), XffMode::Drop);
    assert!(p.headers.get("X-Forwarded-For").is_none());
    assert_eq!(p.headers.get("X-Real-IP").unwrap(), "1.2.3.4");
}

#[test]
fn xff_drop_strips_spoofed_even_without_remote_addr() {
    let p = spoofed("9.9.9.9", None, XffMode::Drop);
    assert!(p.headers.get("X-Forwarded-For").is_none());
    assert!(p.headers.get("X-Real-IP").is_none());
}

#[test]
fn xff_real_ip_is_never_trusted_from_inbound() {
    let p = prepared(
        Some("/test"),
        &[("x-real-ip", "9.9.9.9")],
        "127.0.0.1:8000",
        Some("1.2.3.4"),
        "https",
        XffMode::Append,
    );
    assert_eq!(p.headers.get("X-Real-IP").unwrap(), "1.2.3.4");
}

#[test]
fn xff_mode_parse_known_values() {
    assert_eq!(XffMode::parse("append"), Some(XffMode::Append));
    assert_eq!(XffMode::parse("rewrite"), Some(XffMode::Rewrite));
    assert_eq!(XffMode::parse("drop"), Some(XffMode::Drop));
}

#[test]
fn xff_mode_parse_rejects_unknown() {
    assert_eq!(XffMode::parse("APPEND"), None);
    assert_eq!(XffMode::parse("strip"), None);
    assert_eq!(XffMode::parse(""), None);
}

#[test]
fn xff_mode_default_is_append() {
    assert_eq!(XffMode::default(), XffMode::Append);
}

#[test]
fn ws_http_is_plain() {
    assert!(!is_tls_upstream("http"));
}

#[test]
fn ws_ws_is_plain() {
    assert!(!is_tls_upstream("ws"));
}

#[test]
fn ws_https_is_tls() {
    assert!(is_tls_upstream("https"));
}

#[test]
fn ws_wss_is_tls() {
    assert!(is_tls_upstream("wss"));
}

#[test]
fn ws_default_port_http_80() {
    assert_eq!(default_port("http"), 80);
    assert_eq!(default_port("ws"), 80);
}

#[test]
fn ws_default_port_https_443() {
    assert_eq!(default_port("https"), 443);
    assert_eq!(default_port("wss"), 443);
}

#[test]
fn ws_authority_with_port_preserved() {
    let auth: Authority = "api.internal:9443".parse().unwrap();
    assert!(auth.port().is_some());
    assert_eq!(auth.port_u16().unwrap(), 9443);
    assert_eq!(connect_target(auth.as_str(), "https"), "api.internal:9443");
}

#[test]
fn ws_authority_without_port_needs_default() {
    let auth: Authority = "api.internal".parse().unwrap();
    assert!(auth.port().is_none());
    let connect = format!("{}:{}", auth.as_str(), default_port("https"));
    assert_eq!(connect, "api.internal:443");
    assert_eq!(connect_target("api.internal", "https"), connect);
    assert_eq!(connect_target("[::1]", "ws"), "[::1]:80");
}

#[test]
fn a_refused_uri_is_not_prepared() {
    let h = headers(&[]);
    assert!(prepare_request(
        Some("/a"),
        h.clone(),
        "http",
        "no authority",
        None,
        "https",
        XffMode::Append
    )
    .is_none());
    assert!(prepare_request(
        Some("/a"),
        h,
        "http",
        "127.0.0.1:1",
        None,
        "https",
        XffMode::Append
    )
    .is_some());
}

#[test]
fn repeated_fields_go_with_all_their_values() {
    let p = prepared(
        Some("/"),
        &[("te", "a"), ("te", "b"), ("accept", "x"), ("accept", "y")],
        "a:1",
        None,
        "https",
        XffMode::Append,
    );
    assert!(p.headers.get("te").is_none());
    assert_eq!(p.headers.get_all("accept").iter().count(), 2);
}

#[test]
fn header_texts() {
    assert!(is_header_text("1.2.3.4"));
    assert!(is_header_text("tab\tand é"));
    assert!(!is_header_text("line\nbreak"));
    assert!(!is_header_text("\u{7f}"));
}

#[test]
fn streams_are_not_buffered() {
    let mut h = headers(&[("cache-control", "max-age=1")]);
    assert!(mark_streaming(&mut h));
    assert_eq!(h.get("x-accel-buffering").unwrap(), "no");
    assert_ne!(h.get("cache-control").unwrap(), "max-age=1");
}

#[test]
fn replies_when_no_answer_came() {
    assert!(reply_without_answer(Sent::Answered).is_none());
    assert_eq!(reply_without_answer(Sent::Failed).unwrap().status, 502);
    assert_eq!(reply_without_answer(Sent::TimedOut).unwrap().status, 504);
    assert_eq!(gateway_timeout().body, "504 Gateway Timeout");
    assert_eq!(
        stream_error().header,
        Some(("content-type", "text/event-stream"))
    );
}

#[test]
fn failover_tries_each_upstream_once() {
    assert!(Failover::begin(1, "GET").is_none());
    let mut f = Failover::begin(2, "GET").unwrap();
    match f.next(Some("https://b.example:9443/x"), "http", "a:1") {
        Attempt::Send(t) => {
            assert_eq!(t.scheme, "https");
            assert_eq!(t.authority, "b.example:9443");
        }
        Attempt::GiveUp => panic!("expected an attempt"),
    }
    assert!(f.may_retry(false));
    match f.next(Some("/only/a/path"), "http", "a:1") {
        Attempt::Send(t) => {
            assert_eq!(t.scheme, "http");
            assert_eq!(t.authority, "a:1");
        }
        Attempt::GiveUp => panic!("expected an attempt"),
    }
    assert!(matches!(f.next(Some("http://c"), "http", "a:1"), Attempt::GiveUp));
}

#[test]
fn a_request_that_may_not_repeat_is_not_replayed() {
    let f = Failover::begin(3, "POST").unwrap();
    assert!(!f.may_retry(false));
    assert!(f.may_retry(true));
    assert!(is_idempotent("PUT"));
    assert!(!is_idempotent("PATCH"));
}

#[test]
fn upgrades_pass_the_handshake_on() {
    let fields = upgrade_reply(Some("key".to_string()), None, Some("ext".to_string()));
    let got: Vec<(&str, &str)> = fields
        .iter()
        .map(|f| (f.name.as_str(), f.value.as_str()))
        .collect();
    assert_eq!(
        got,
        vec![
            ("upgrade", "websocket"),
            ("connection", "Upgrade"),
            ("sec-websocket-accept", "key"),
            ("sec-websocket-extensions", "ext"),
        ]
    );
}

#[test]
fn an_upgrade_keeps_its_handshake() {
    let u = prepare_upgrade(
        Some("/ws?x=1"),
        headers(&[
            ("host", "a.test"),
            ("connection", "Upgrade"),
            ("upgrade", "websocket"),
            ("sec-websocket-key", "k"),
            ("proxy-authorization", "Basic x"),
            ("x-forwarded-for", "6.6.6.6"),
        ]),
        "wss",
        "api.internal",
        Some("1.2.3.4"),
        "https",
        XffMode::Rewrite,
    )
    .unwrap();
    assert_eq!(u.connect, "api.internal:443");
    assert!(u.tls);
    assert_eq!(u.uri, "wss://api.internal/ws?x=1");
    assert_eq!(u.headers.get("connection").unwrap(), "Upgrade");
    assert_eq!(u.headers.get("upgrade").unwrap(), "websocket");
    assert_eq!(u.headers.get("sec-websocket-key").unwrap(), "k");
    assert!(u.headers.get("proxy-authorization").is_none());
    assert!(u.headers.get("host").is_none());
    assert_eq!(u.headers.get("x-forwarded-host").unwrap(), "a.test");
    assert_eq!(u.headers.get("x-forwarded-for").unwrap(), "1.2.3.4");
    let bad = prepare_upgrade(None, headers(&[]), "http", "not valid", None, "http", XffMode::Drop);
    assert!(bad.is_none());
}

#[test]
fn only_a_switch_is_answered_with_one() {
    let accept = Some("abc".to_string());
    assert!(matches!(
        answer_upgrade(200, accept.clone(), None, None),
        UpgradeAnswer::HandOn
    ));
    match answer_upgrade(101, accept, Some("chat".to_string()), None) {
        UpgradeAnswer::Switch(fields) => {
            let shown: Vec<(&str, &str)> = fields
                .iter()
                .map(|f| (f.name.as_str(), f.value.as_str()))
                .collect();
            assert_eq!(
                shown,
                vec![
                    ("upgrade", "websocket"),
                    ("connection", "Upgrade"),
                    ("sec-websocket-accept", "abc"),
                    ("sec-websocket-protocol", "chat"),
                ]
            );
        }
        UpgradeAnswer::HandOn => panic!("expected a switch"),
    }
}

#[test]
fn real_ip_is_dropped_where_no_client_is_known() {
    for mode in [XffMode::Append, XffMode::Rewrite, XffMode::Drop] {
        let p = prepared(
            Some("/test"),
            &[("x-real-ip", "9.9.9.9")],
            "127.0.0.1:8000",
            None,
            "https",
            mode,
        );
        assert!(p.headers.get("X-Real-IP").is_none());
    }
}

fn named_fields(n: usize) -> HeaderMap {
    let mut h = HeaderMap::new();
    for i in 0..n {
        let name: hyper::http::HeaderName = format!("x-field-{i}").parse().unwrap();
        h.insert(name, "v".parse().unwrap());
    }
    h
}

/// A map that takes no other field.
fn full_map() -> HeaderMap {
    let mut h = HeaderMap::new();
    for i in 0..40_000 {
        let name: hyper::http::HeaderName = format!("x-field-{i}").parse().unwrap();
        if h.try_insert(name, "v".parse().unwrap()).is_err() {
            return h;
        }
    }
    panic!("the map has no end")
}

#[test]
fn a_large_header_map_is_forwarded() {
    let p = prepare_request(
        Some("/a"),
        named_fields(9_000),
        "http",
        "127.0.0.1:1",
        Some("1.2.3.4"),
        "https",
        XffMode::Append,
    )
    .expect("prepared");
    assert_eq!(p.headers.keys_len(), 9_003);
    assert_eq!(p.headers.get("x-real-ip").unwrap(), "1.2.3.4");
    let u = prepare_upgrade(
        Some("/a"),
        named_fields(9_000),
        "http",
        "127.0.0.1:1",
        None,
        "https",
        XffMode::Append,
    )
    .expect("prepared");
    assert_eq!(u.headers.keys_len(), 9_001);
    let mut h = named_fields(9_000);
    assert!(mark_streaming(&mut h));
    assert_eq!(h.keys_len(), 9_002);
}

#[test]
fn a_full_header_map_is_refused() {
    let before = full_map().keys_len();
    let mut h = full_map();
    assert!(!mark_streaming(&mut h));
    assert_eq!(h.keys_len(), before);
    assert!(!apply_forwarding_hygiene(
        &mut h,
        Some("1.2.3.4"),
        "https",
        XffMode::Append
    ));
    assert_eq!(h.get("x-field-7").unwrap(), "v");
    let ip = Some("1.2.3.4");
    let mode = XffMode::Append;
    assert!(prepare_request(None, full_map(), "http", "a:1", ip, "https", mode).is_none());
    assert!(prepare_upgrade(None, full_map(), "http", "a:1", ip, "https", mode).is_none());
}
