use hyper::header::HeaderValue;
use hyper::HeaderMap;
use zion::memfd::{label_buf, worth_a_file, MIN_MEMFD_THRESHOLD};
use zion::metrics::UpstreamRow;
use zion::proxy::XffMode;
use zion::quic::{request_fields, strip_response, ALT_SVC_H3};
use zion::server::boot::{config_loaded, demux_line, mesh_line, DemuxReadiness};
use zion::server::tuning::tls_loaded;
use zion::server::boot::{accept_error_log_due, admin_listener, admission, config_path};
use zion::server::boot::{core_of_worker, drain_end, drain_permits, drain_start};
use zion::server::boot::{handshake_failed, handshake_log_due, http_bound, https_bound};
use zion::server::boot::{io_uring_line, ktls_line};
use zion::server::boot::{mesh_enabled, mesh_peers, prefer, renewal_line, scavenge_window};
use zion::server::boot::{scavenged_line, tls_handshake_log_allowed, Admission, Level};
use zion::server::identity::{attest, client_fingerprint, fingerprint_text, front_door};
use zion::server::identity::FrontDoor;
use zion::server::limits::{h2_header_ceiling, H2_KEEPALIVE_INTERVAL_SECS};
use zion::server::limits::{H2_KEEPALIVE_TIMEOUT_SECS, H2_MAX_CONCURRENT_STREAMS};
use zion::server::limits::{H2_MAX_HEADER_LIST_SIZE, H2_MAX_PENDING_ACCEPT_RESET_STREAMS};
use zion::server::plain_http::{
    handle_http, host_of, plain_reply, sort_rows, Decision, PlainReply, PlainRequest,
};
use zion::server::probe::{due_probes, health_change, probe_host, probe_host_with, read_probe};
use zion::server::probe::{sleep_us, Probe};
use zion::server::reply::{empty_response, method_not_allowed, text_response, unauthorized};
use zion::server::request_id::{generate_request_id, request_id};
use zion::server::tuning::{announce, per_ip_cap, Enforce, Listen, Pool};
use zion::server::tuning::{ResolvedAppConfig, Settings, Single, Tarpit};

fn s(t: &str) -> String {
    t.to_string()
}

// ── Replies and limits ──────────────────────────────────────────────────

#[test]
fn method_not_allowed_carries_allow_header() {
    let resp = method_not_allowed("GET, HEAD, POST");
    assert_eq!(resp.status, 405);
    assert_eq!(resp.header, Some(("allow", "GET, HEAD, POST")));
}

#[test]
fn unauthorized_carries_www_authenticate() {
    let resp = unauthorized("authorization required", "Bearer");
    assert_eq!(resp.status, 401);
    assert_eq!(resp.header, Some(("www-authenticate", "Bearer")));
    assert_eq!(resp.body, "authorization required");
}

#[test]
fn h2_per_connection_memory_is_bounded() {
    let worst_case_header_bytes = H2_MAX_CONCURRENT_STREAMS as u64 * H2_MAX_HEADER_LIST_SIZE as u64;
    assert!(worst_case_header_bytes <= 4 * 1024 * 1024);
    assert_eq!(h2_header_ceiling(), worst_case_header_bytes);
    assert!(H2_MAX_CONCURRENT_STREAMS >= 64);
    assert!(H2_MAX_HEADER_LIST_SIZE >= 8 * 1024);
    assert!((1..=100).contains(&H2_MAX_PENDING_ACCEPT_RESET_STREAMS));
    assert!(H2_KEEPALIVE_TIMEOUT_SECS <= H2_KEEPALIVE_INTERVAL_SECS);
}

#[test]
fn alt_svc_header_value() {
    assert_eq!(ALT_SVC_H3, "h3=\":443\"; ma=86400");
}

#[test]
fn alt_svc_is_valid_header() {
    let mut map = HeaderMap::new();
    map.insert("Alt-Svc", HeaderValue::from_static(ALT_SVC_H3));
    assert!(map.contains_key("Alt-Svc"));
}

#[test]
fn short_replies() {
    assert_eq!(empty_response(204).body, "");
    assert_eq!(text_response(200, "ok").body, "ok");
    assert!(text_response(200, "ok").header.is_none());
}

// ── Request ids ─────────────────────────────────────────────────────────

#[test]
fn request_ids_are_exact() {
    assert_eq!(&request_id(0x0005_f3a1_9c00_00ff, 0x1_0203), b"0005f3a19c0000ff-0203");
    assert!(request_id(255, 9)[..] < request_id(256, 0)[..]);
}

#[test]
fn request_ids_count_up() {
    let mut counter: u64 = u64::MAX;
    let a = generate_request_id(&mut counter);
    assert_eq!(counter, 0);
    let b = generate_request_id(&mut counter);
    assert_eq!(counter, 1);
    assert_eq!(&a[16..], b"-ffff");
    assert_eq!(&b[16..], b"-0000");
    assert_ne!(a, b);
}

// ── Client identity ─────────────────────────────────────────────────────

#[test]
fn fingerprints_are_sha256() {
    assert_eq!(
        client_fingerprint(b"hello, world"),
        "sha256:09ca7e4eaa6e8ae9c7d261167129184883644d07dfba7cbfbc4c8a2e08360d5b"
    );
    assert_eq!(fingerprint_text(&[0x0a, 0xff]), "sha256:0aff");
}

fn forged() -> HeaderMap {
    let mut h = HeaderMap::new();
    h.append("x-client-cert-fingerprint", "forged".parse().unwrap());
    h.append("x-client-cert-fingerprint", "again".parse().unwrap());
    h.append("x-client-cert-dn", "CN=forged".parse().unwrap());
    h.append("accept", "x".parse().unwrap());
    h
}

#[test]
fn forged_identities_do_not_get_through() {
    let mut h = forged();
    assert!(attest(&mut h, None));
    assert!(h.get("x-client-cert-fingerprint").is_none());
    assert!(h.get("x-client-cert-dn").is_none());
    assert_eq!(h.get("accept").unwrap(), "x");
    let mut h = forged();
    assert!(attest(&mut h, Some("sha256:00")));
    let all: Vec<_> = h.get_all("x-client-cert-fingerprint").iter().collect();
    assert_eq!(all, vec!["sha256:00"]);
    assert!(h.get("x-client-cert-dn").is_none());
}

#[test]
fn only_the_first_request_is_early() {
    let mut early = true;
    let mut h = forged();
    match front_door("/healthz", &mut early, &mut h, None) {
        Some(FrontDoor::Answer(r)) => assert_eq!((r.status, r.body), (200, "ok")),
        _ => panic!("a probe is answered"),
    }
    match front_door("/readyz", &mut early, &mut h, None) {
        Some(FrontDoor::Answer(r)) => assert_eq!((r.status, r.body), (200, "ready")),
        _ => panic!("a probe is answered"),
    }
    assert!(early);
    assert!(h.contains_key("x-client-cert-dn"));
    assert!(matches!(
        front_door("/", &mut early, &mut h, None),
        Some(FrontDoor::Pass { was_early: true })
    ));
    assert!(!h.contains_key("x-client-cert-dn"));
    assert!(matches!(
        front_door("/", &mut early, &mut h, None),
        Some(FrontDoor::Pass { was_early: false })
    ));
}

// ── Plain HTTP ──────────────────────────────────────────────────────────

fn request(path: &str) -> PlainRequest {
    PlainRequest {
        within_rate: true,
        path: s(path.split('?').next().unwrap()),
        path_and_query: Some(s(path)),
        internal: false,
        challenge: None,
        routed: false,
        host: Some(s("example.com")),
        host_valid: true,
    }
}

fn location(q: &PlainRequest) -> String {
    match handle_http(q) {
        Decision::Redirect(u) => u,
        d => panic!("expected a redirect, got {d:?}"),
    }
}

fn refusal(q: &PlainRequest) -> u16 {
    match handle_http(q) {
        Decision::Refuse(r) => r.status,
        d => panic!("expected a refusal, got {d:?}"),
    }
}

#[test]
fn requests_are_sent_to_https() {
    assert_eq!(location(&request("/a?b=c")), "https://example.com/a?b=c");
    let mut q = request("/a");
    q.path_and_query = None;
    assert_eq!(location(&q), "https://example.com/");
    q.host_valid = false;
    assert_eq!(location(&q), "https://localhost/");
    q.host = None;
    assert_eq!(location(&q), "https://localhost/");
}

#[test]
fn redirects_stay_on_the_host() {
    assert_eq!(location(&request("//evil.example/x")), "https://example.com/");
    assert_eq!(location(&request("/\\evil.example")), "https://example.com/");
}

#[test]
fn requests_over_the_limits_are_refused() {
    let mut q = request("/a");
    q.within_rate = false;
    assert_eq!(refusal(&q), 429);
    assert_eq!(refusal(&request(&format!("/a?{}", "x".repeat(8190)))), 414);
    let fits = format!("/a?{}", "x".repeat(8189));
    assert_eq!(location(&request(&fits)).len(), "https://example.com".len() + 8192);
}

#[test]
fn the_snapshot_is_for_the_internal_network() {
    let mut q = request("/_zion/snapshot.json");
    assert_eq!(refusal(&q), 403);
    q.internal = true;
    assert!(matches!(handle_http(&q), Decision::Snapshot));
}

#[test]
fn challenges_are_answered_or_passed_on() {
    let mut q = request("/.well-known/acme-challenge/tok");
    assert_eq!(
        location(&q),
        "https://example.com/.well-known/acme-challenge/tok"
    );
    q.routed = true;
    assert!(matches!(handle_http(&q), Decision::Proxy));
    q.challenge = Some(s("tok.key"));
    match handle_http(&q) {
        Decision::Challenge(k) => assert_eq!(k, "tok.key"),
        d => panic!("expected the key, got {d:?}"),
    }
}

#[test]
fn hosts_are_plain_text() {
    let mut h = HeaderMap::new();
    assert_eq!(host_of(&h), None);
    h.insert("host", "a.example:80".parse().unwrap());
    assert_eq!(host_of(&h), Some(s("a.example:80")));
    h.insert("host", HeaderValue::from_bytes(b"\xff").unwrap());
    assert_eq!(host_of(&h), None);
}

#[test]
fn rows_come_by_url() {
    let row = |url| UpstreamRow {
        url,
        healthy: true,
        latency_us: 1,
    };
    let rows = sort_rows(vec![row("http://b"), row("http://a:2"), row("http://a")]);
    let urls: Vec<&str> = rows.iter().map(|r| r.url).collect();
    assert_eq!(urls, vec!["http://a", "http://a:2", "http://b"]);
}

// ── Configuration ───────────────────────────────────────────────────────

fn settings() -> Settings {
    Settings {
        router_fault: None,
        route_upstreams: vec![s("pool"), s("one"), s("gone"), s("pool")],
        pools: vec![Pool {
            name: s("pool"),
            urls: vec![s("http://a:1"), s("http://b:1"), s("http://a:1")],
        }],
        singles: vec![
            Single {
                name: s("one"),
                url: s("http://b:1"),
            },
            Single {
                name: s("unused"),
                url: s("http://z:1"),
            },
        ],
        trusted_proxies: vec![s("10.0.0.0/8")],
        xff_mode: s("rewrite"),
        listen_http: Listen {
            text: s("0.0.0.0:80"),
            fault: None,
        },
        listen_https: Listen {
            text: s("0.0.0.0:443"),
            fault: None,
        },
        rate_limit_rps: 7,
        rate_limit_window: 3,
        max_connections_per_ip: None,
        region: None,
        log_classification: false,
        enforce: Enforce {
            enabled: false,
            unknown_labels: Vec::new(),
            known_labels: vec![s("tor")],
            tarpit: Tarpit {
                enabled: true,
                max_concurrent: 500,
                hold_secs: 61,
            },
        },
    }
}

#[test]
fn a_snapshot_is_built() {
    let (c, lines) = ResolvedAppConfig::try_build(&settings(), 800).unwrap();
    assert_eq!(c.upstream_urls, vec!["http://a:1", "http://b:1"]);
    assert_eq!(c.xff_mode, XffMode::Rewrite);
    assert_eq!((c.rate_limit_rps, c.rate_limit_window), (7, 3));
    assert_eq!(c.max_connections_per_ip, 100);
    assert_eq!(c.tarpit_max_concurrent, 500);
    assert_eq!(c.listen_http.as_deref(), Some("0.0.0.0:80"));
    assert!(!c.sovereign_enabled);
    assert!(lines.is_empty());
}

#[test]
fn odd_settings_are_told() {
    let mut v = settings();
    v.listen_http.fault = Some(s("invalid socket address syntax"));
    v.region = Some(s("eu"));
    v.enforce.enabled = true;
    v.enforce.unknown_labels = vec![s("to\"r")];
    let (c, lines) = ResolvedAppConfig::try_build(&v, 800).unwrap();
    assert_eq!(c.listen_http, None);
    assert_eq!(c.tarpit_max_concurrent, 200);
    let told: Vec<&str> = lines.iter().map(|l| l.message.as_str()).collect();
    assert_eq!(told.len(), 5);
    assert_eq!(
        told[0],
        "server.listen_http '0.0.0.0:80' is not a valid socket address: invalid socket address syntax"
    );
    assert_eq!(
        told[1],
        "Sovereign Edge active (region=eu, log_classification=false)"
    );
    assert!(told[2].contains(r#"label(s) ["to\"r"] — they will never match (known: ["tor"])"#));
    assert!(told[3].contains("max_concurrent 500 exceeds 1/4 of the global connection ceiling (800) — clamping to 200"));
    assert!(told[4].contains("hold_secs = 61 is very large"));
    v.enforce.tarpit.max_concurrent = 0;
    let (_, lines) = ResolvedAppConfig::try_build(&v, 800).unwrap();
    assert!(lines.iter().any(|l| l.message.contains("max_concurrent = 0")));
}

#[test]
fn a_bad_router_is_an_error() {
    let mut v = settings();
    v.router_fault = Some(s("duplicate route"));
    assert_eq!(
        ResolvedAppConfig::try_build(&v, 1).err().unwrap(),
        "duplicate route"
    );
}

#[test]
fn unknown_modes_fall_back() {
    let mut v = settings();
    v.xff_mode = s("strip");
    let (c, _) = ResolvedAppConfig::try_build(&v, 1).unwrap();
    assert_eq!(c.xff_mode, XffMode::Append);
    assert_eq!(c.max_connections_per_ip, 1);
    let lines = announce(&v, c.xff_mode, true);
    let told: Vec<&str> = lines.iter().map(|l| l.message.as_str()).collect();
    assert_eq!(
        told,
        vec![
            "trusted proxies: [\"10.0.0.0/8\"]",
            "unknown server.xff_mode 'strip', falling back to 'append' (valid: append/rewrite/drop)",
            "xff_mode: Append",
        ]
    );
}

#[test]
fn caps_per_client() {
    assert_eq!(per_ip_cap(Some(0), 800), 0);
    assert_eq!(per_ip_cap(None, 7), 1);
    assert_eq!(per_ip_cap(None, 80_000), 10_000);
}

// ── Boot and shutdown ───────────────────────────────────────────────────

#[test]
fn configuration_comes_before_the_environment() {
    assert_eq!(prefer("a", &Some(s("b")), "c"), "a");
    assert_eq!(prefer("", &Some(s("b")), "c"), "b");
    assert_eq!(prefer("", &None, "c"), "c");
    assert_eq!(mesh_peers(&vec![s("x")], "y"), vec!["x"]);
    assert_eq!(mesh_peers(&Vec::new(), ",a,,b,"), vec!["a", "b"]);
    assert!(mesh_enabled(true, &None));
    assert!(mesh_enabled(false, &Some(s("1"))));
    assert!(!mesh_enabled(false, &Some(s("true"))));
    assert_eq!(config_path(&None), "zion.toml");
    assert_eq!(config_path(&Some(s("/etc/z"))), "/etc/z");
}

#[test]
fn the_admin_listener_needs_an_enforced_gate() {
    assert!(admin_listener("internal-ip", &None).is_none());
    let l = admin_listener("mtls", &None).unwrap();
    assert_eq!(l.level, Level::Error);
    assert!(l.message.starts_with("admin.auth = 'mtls' is not yet enforced"));
    let l = admin_listener("internal-ip", &Some(s("bad"))).unwrap();
    assert_eq!(l.message, "admin.listen invalid: bad");
}

#[test]
fn binds_are_told() {
    assert_eq!(http_bound("a:80", &None).message, "  listening HTTP  on a:80");
    assert_eq!(
        http_bound("a:80", &Some(s("in use"))).message,
        "  warning: HTTP listener on a:80 unavailable: in use"
    );
    assert_eq!(
        https_bound("a:443", &None).unwrap().message,
        "  listening HTTPS on a:443"
    );
    assert_eq!(
        https_bound("a:443", &Some(s("in use"))).err().unwrap(),
        "HTTPS bind a:443: in use"
    );
}

#[test]
fn connections_are_admitted_in_order() {
    assert_eq!(admission(false, false), Admission::Full);
    assert_eq!(admission(true, false), Admission::ClientFull);
    assert_eq!(admission(true, true), Admission::Accept);
}

#[test]
fn log_lines_are_a_second_apart() {
    let mut last: u64 = 0;
    assert!(!handshake_log_due(&mut last, 999));
    assert!(handshake_log_due(&mut last, 1_000));
    assert!(!handshake_log_due(&mut last, 500));
    assert!(!handshake_log_due(&mut last, 1_999));
    assert_eq!(last, 1_000);
    assert!(tls_handshake_log_allowed(&mut last));
    assert!(last > 1_000_000);
    let mut first: Option<u64> = None;
    assert!(accept_error_log_due(&mut first, 5));
    assert!(!accept_error_log_due(&mut first, 1_000_004));
    assert!(accept_error_log_due(&mut first, 1_000_005));
    assert_eq!(first, Some(1_000_005));
    assert_eq!(
        handshake_failed("1.2.3.4:5", &Some(s("eof"))).message,
        "  tls handshake failed from 1.2.3.4:5: eof"
    );
    assert_eq!(
        handshake_failed("1.2.3.4:5", &None).message,
        "  tls handshake timed out (10s) from 1.2.3.4:5"
    );
}

#[test]
fn lines_are_rendered_by_level() {
    let l = handshake_failed("a", &None);
    assert_eq!(l.render(true, true), l.message);
    let l = renewal_line(&vec![s("a.example"), s("b.example")]);
    assert_eq!(l.render(false, true), "auto-renewal enabled for: a.example, b.example");
    assert!(l.render(true, false).contains("\"event\":\"acme\""));
    let l = admin_listener("x", &None).unwrap();
    assert!(l.render(false, false).starts_with("  error: admin.auth"));
}

#[test]
fn workers_go_round_the_cores() {
    assert_eq!(core_of_worker(5, 4), Some(1));
    assert_eq!(core_of_worker(5, 0), None);
}

#[test]
fn background_lines() {
    assert_eq!(scavenge_window(0), 1);
    assert_eq!(scavenge_window(9), 9);
    assert!(scavenged_line(0, 4).is_none());
    assert_eq!(
        scavenged_line(2, 4).unwrap().message,
        "scavenged 2 stale IPs (4 tracked)"
    );
}

#[test]
fn drains_are_told() {
    assert_eq!(drain_permits(100), 100);
    assert_eq!(drain_permits(usize::MAX), u32::MAX);
    assert!(drain_start(10, 10).is_none());
    assert_eq!(
        drain_start(10, 7).unwrap().message,
        "draining 3 in-flight connections (timeout 30s)..."
    );
    assert_eq!(drain_end(true, 10, 10).message, "all connections drained cleanly");
    let l = drain_end(false, 10, 8);
    assert_eq!(l.level, Level::Warn);
    assert_eq!(
        l.message,
        "drain timeout (30s), 2 connections still active, forcing exit"
    );
}

// ── Probes ──────────────────────────────────────────────────────────────

#[test]
fn due_upstreams_are_probed() {
    assert_eq!(due_probes(&vec![5, 11, 10], 10), vec![0, 2]);
    assert_eq!(sleep_us(&vec![5_000_000, 2_000_000], 1_000_000), 1_000_000);
    assert_eq!(sleep_us(&vec![5], 10), 10_000);
    assert_eq!(sleep_us(&Vec::new(), 10), 30_000_000);
}

#[test]
fn probes_are_read() {
    let up = Probe {
        healthy: true,
        latency_us: 7,
    };
    let down = Probe {
        healthy: false,
        latency_us: 0,
    };
    assert_eq!(read_probe(Some(200), 7), up);
    assert_eq!(read_probe(Some(399), 7), up);
    assert_eq!(read_probe(Some(400), 7), down);
    assert_eq!(read_probe(Some(199), 7), down);
    assert_eq!(read_probe(None, 7), down);
    assert_eq!(
        health_change("http://a", true, down, 250_999).unwrap().message,
        "upstream http://a is DOWN — 503 until it recovers; adaptive re-probe in ~250ms"
    );
    assert_eq!(
        health_change("http://a", false, up, 0).unwrap().message,
        "upstream http://a is UP (7us)"
    );
    assert!(health_change("http://a", true, up, 0).is_none());
    assert!(health_change("http://a", false, down, 0).is_none());
}

// ── HTTP/3 and memory files ─────────────────────────────────────────────

#[test]
fn hop_fields_are_not_carried() {
    let mut h = HeaderMap::new();
    h.append("server", HeaderValue::from_static("zion"));
    h.append("connection", HeaderValue::from_static("close"));
    h.append("set-cookie", HeaderValue::from_static("a=1"));
    h.append("set-cookie", HeaderValue::from_bytes(b"b=\xff").unwrap());
    h.append("upgrade", HeaderValue::from_static("h2c"));
    strip_response(&mut h);
    assert_eq!(h.keys_len(), 2);
    assert_eq!(h.get("server").unwrap(), "zion");
    assert_eq!(h.get_all("set-cookie").iter().count(), 2);
    let r = request_fields("1.2.3.4");
    assert_eq!(r[0].name, "x-forwarded-for");
    assert_eq!(r[0].value, "1.2.3.4");
    assert_eq!(r[1].value, "https");
}

#[test]
fn kernel_lines() {
    let l = io_uring_line(true);
    assert_eq!(l.level, Level::Info);
    assert_eq!(l.event, "io_uring_rw");
    assert!(l.message.starts_with("kernel supports vectored rw (>= 5.19)"));
    assert_eq!(io_uring_line(false).level, Level::Warn);
    assert_eq!(ktls_line(true).level, Level::Info);
    let l = ktls_line(false);
    assert_eq!(l.event, "ktls");
    assert!(l.message.starts_with("kernel does NOT advertise kTLS support"));
}

#[test]
fn probes_name_the_authority() {
    assert_eq!(probe_host("http://10.0.0.1:8080/x"), Some(s("10.0.0.1:8080")));
    assert_eq!(probe_host("/only/a/path"), Some(s("localhost")));
    assert_eq!(probe_host("http://exa mple"), None);
    assert_eq!(probe_host_with(Some((None, None))), Some(s("localhost")));
    assert_eq!(probe_host_with(None), None);
}

#[test]
fn labels_are_cut() {
    let long = "x".repeat(1024);
    let b = label_buf(&long);
    assert_eq!(b[62], b'x');
    assert_eq!(b[63], 0);
    assert_eq!(&label_buf("ab")[..4], b"ab\0\0");
    assert!(worth_a_file(MIN_MEMFD_THRESHOLD));
    assert!(!worth_a_file(MIN_MEMFD_THRESHOLD - 1));
}

#[test]
fn the_mesh_is_told() {
    let up = mesh_line(&Ok(([0x0a, 0xff, 0x00, 0x12], true)), "0.0.0.0:9443");
    assert_eq!(
        up.message,
        "  AIMP control plane up: node_id[0..4]=[0a, ff, 00, 12] listen=0.0.0.0:9443 peers=1"
    );
    assert_eq!(up.level, Level::Console);
    let down = mesh_line(&Err("no key".to_string()), "0.0.0.0:9443");
    assert_eq!(down.message, "bootstrap failed: no key — continuing without AIMP");
    assert_eq!(down.level, Level::Warn);
}

#[test]
fn demux_readiness_is_told() {
    assert_eq!(demux_line(&DemuxReadiness::Ready).unwrap().level, Level::Info);
    let old = demux_line(&DemuxReadiness::KernelTooOld { release: "4.19".to_string() }).unwrap();
    assert!(old.message.starts_with("kernel 4.19 < 5.7 — "));
    assert_eq!(demux_line(&DemuxReadiness::MissingCapability).unwrap().level, Level::Warn);
    assert!(demux_line(&DemuxReadiness::NotLinux).is_none());
}

#[test]
fn loaded_settings_are_told() {
    assert_eq!(config_loaded("zion.toml").message, "loaded from zion.toml");
    let alpn = vec!["h2".to_string(), "http/1.1".to_string()];
    assert_eq!(
        tls_loaded("1.3", &alpn).message,
        "  tls loaded (min=1.3, alpn=[\"h2\", \"http/1.1\"])"
    );
}

#[test]
fn plain_replies_are_exact() {
    let fields = |r: &PlainReply| -> Vec<(String, String)> {
        r.fields
            .iter()
            .map(|f| (f.name.clone(), f.value.clone()))
            .collect()
    };
    let sent = |q: &PlainRequest| plain_reply(&handle_http(q));

    let r = sent(&request("/a?b=c")).expect("a reply");
    assert_eq!(r.status, 301);
    assert_eq!(
        fields(&r),
        vec![(s("Location"), s("https://example.com/a?b=c"))]
    );
    assert_eq!(r.body, "");

    let mut q = request("/.well-known/acme-challenge/t");
    q.challenge = Some(s("t.key"));
    let r = sent(&q).expect("a reply");
    assert_eq!(r.status, 200);
    assert_eq!(fields(&r), vec![(s("Content-Type"), s("text/plain"))]);
    assert_eq!(r.body, "t.key");
    q.challenge = None;
    q.routed = true;
    assert!(sent(&q).is_none());

    let mut q = request("/_zion/snapshot.json");
    let r = sent(&q).expect("a reply");
    assert_eq!((r.status, r.fields.len()), (403, 0));
    q.internal = true;
    let r = sent(&q).expect("a reply");
    assert_eq!(r.status, 200);
    assert_eq!(
        fields(&r),
        vec![
            (s("Content-Type"), s("application/json; charset=utf-8")),
            (s("Cache-Control"), s("no-store")),
        ]
    );
    q.within_rate = false;
    assert_eq!(sent(&q).expect("a reply").status, 429);

    let refusal = Decision::Refuse(unauthorized("no", "Bearer"));
    let r = plain_reply(&refusal).expect("a reply");
    assert_eq!(r.status, 401);
    assert_eq!(fields(&r), vec![(s("www-authenticate"), s("Bearer"))]);
    assert_eq!(r.body, "no");
}

#[test]
fn a_full_header_map_takes_no_attestation() {
    let mut h = HeaderMap::new();
    h.insert("x-client-cert-dn", "CN=forged".parse().unwrap());
    let mut i = 0;
    loop {
        let name: hyper::http::HeaderName = format!("x-field-{i}").parse().unwrap();
        if h.try_insert(name, "v".parse().unwrap()).is_err() {
            break;
        }
        i += 1;
    }
    let mut early = true;
    let fp = Some("sha256:00");
    let mut copy = h.clone();
    assert!(matches!(
        front_door("/healthz", &mut early, &mut copy, fp),
        Some(FrontDoor::Answer(_))
    ));
    assert!(copy.contains_key("x-client-cert-dn"));
    assert!(matches!(
        front_door("/", &mut early, &mut copy, None),
        Some(FrontDoor::Pass { was_early: true })
    ));
    early = true;
    // Without the client's claim there is one place less to take.
    let mut full = h;
    full.remove("x-client-cert-dn");
    let name: hyper::http::HeaderName = "x-last".parse().unwrap();
    assert!(full.try_insert(name, "v".parse().unwrap()).is_ok());
    assert!(front_door("/", &mut early, &mut full, fp).is_none());
    assert!(early);
}
