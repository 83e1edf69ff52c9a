use zion::metrics::{record_start, uptime_secs, ConnectionGuard, HistogramTexts};
use zion::metrics::{ClassCount, LatencyHistogram, Metrics, PageTexts, Ranks, ShardedCounter};
use zion::metrics::StartInstant;
use zion::observability::Counters;
use zion::page::Page;

fn seconds(us: u64) -> String {
    let mut b = ryu::Buffer::new();
    b.format(us as f64 / 1_000_000.0).to_string()
}

fn texts(h: &LatencyHistogram) -> HistogramTexts {
    HistogramTexts {
        sum: seconds(h.sum_us),
        values: h.exemplars.iter().map(|e| seconds(e.value_us)).collect(),
    }
}

fn rendered(h: &LatencyHistogram, name: &str, help: &str) -> String {
    let mut page = Page::new();
    h.render(name, help, &texts(h), &mut page);
    String::from_utf8(page.finish().to_vec()).unwrap()
}

#[test]
fn histogram_observe_1ms() {
    let mut h = LatencyHistogram::new();
    h.observe(1_000);
    assert_eq!(h.count, 1);
    assert_eq!(h.sum_us, 1000);
    assert_eq!(h.buckets[0], 1);
    assert_eq!(h.buckets[1], 0);
    assert_eq!(h.buckets[16], 0);
}

#[test]
fn histogram_observe_500ms() {
    let mut h = LatencyHistogram::new();
    h.observe(500_000);
    assert_eq!(h.count, 1);
    assert_eq!(h.buckets[8], 0);
    assert_eq!(h.buckets[9], 1);
    assert_eq!(h.buckets[10], 0);
}

#[test]
fn histogram_observe_overflow() {
    let mut h = LatencyHistogram::new();
    h.observe(60_000_000);
    for i in 0..16 {
        assert_eq!(h.buckets[i], 0, "bucket {i} should be 0");
    }
    assert_eq!(h.buckets[16], 1);
}

#[test]
fn histogram_differential_multiple() {
    let mut h = LatencyHistogram::new();
    h.observe(1_000);
    h.observe(10_000);
    h.observe(100_000);
    assert_eq!(h.count, 3);
    assert_eq!(h.buckets[0], 1);
    assert_eq!(h.buckets[4], 1);
    assert_eq!(h.buckets[7], 1);
    assert_eq!(h.buckets[16], 0);
    let out = rendered(&h, "test", "test");
    assert!(out.contains("test_bucket{le=\"0.001\"} 1"));
    assert!(out.contains("test_bucket{le=\"0.016\"} 2"));
    assert!(out.contains("test_bucket{le=\"+Inf\"} 3"));
}

#[test]
fn histogram_render_contains_buckets() {
    let mut h = LatencyHistogram::new();
    h.observe(5_000);
    let out = rendered(&h, "test_metric", "A test metric.");
    assert!(out.contains("# TYPE test_metric histogram"));
    assert!(out.contains("test_metric_bucket{le=\"+Inf\"} 1"));
    assert!(out.contains("test_metric_count 1"));
    assert!(out.contains("test_metric_sum"));
}

#[test]
fn histogram_sum_accuracy() {
    let mut h = LatencyHistogram::new();
    h.observe(1500);
    h.observe(2500);
    assert_eq!(h.sum_us, 4000);
}

#[test]
fn exemplar_emitted_when_observed_with_trace() {
    let mut h = LatencyHistogram::new();
    let trace_id = [
        0x0a, 0xf7, 0x65, 0x19, 0x16, 0xcd, 0x43, 0xdd, 0x84, 0x48, 0xeb, 0x21, 0x1c, 0x80, 0x31,
        0x9c,
    ];
    h.observe_with_trace(1500, &trace_id);
    let out = rendered(&h, "xm", "exemplar test");
    assert!(
        out.contains(r#"# {trace_id="0af7651916cd43dd8448eb211c80319c"}"#),
        "expected exemplar with hex-encoded trace ID, got:\n{out}"
    );
}

#[test]
fn exemplar_omitted_when_no_trace_provided() {
    let mut h = LatencyHistogram::new();
    h.observe(5_000);
    let out = rendered(&h, "xm", "no exemplar test");
    assert!(
        !out.contains("trace_id="),
        "rendered no-exemplar bucket should not contain trace_id, got:\n{out}"
    );
}

#[test]
fn exemplar_zero_trace_id_treated_as_none() {
    let mut h = LatencyHistogram::new();
    h.observe_with_trace(5_000, &[0u8; 16]);
    let out = rendered(&h, "xm", "zero trace test");
    assert!(
        !out.contains("trace_id="),
        "all-zero trace ID is invalid per W3C; must not be emitted as exemplar"
    );
}

#[test]
fn exemplar_overwrites_with_latest() {
    let mut h = LatencyHistogram::new();
    let mut tid_a = [0u8; 16];
    tid_a[0] = 0xaa;
    let mut tid_b = [0u8; 16];
    tid_b[0] = 0xbb;
    h.observe_with_trace(1500, &tid_a);
    h.observe_with_trace(1500, &tid_b);
    let out = rendered(&h, "xm", "overwrite test");
    assert!(
        out.contains("trace_id=\"bb"),
        "newer exemplar must overwrite older one in the same bucket, got:\n{out}"
    );
    assert!(!out.contains("trace_id=\"aa"));
}

#[test]
fn exemplar_hex_lowercase_only() {
    let mut h = LatencyHistogram::new();
    let trace_id = [
        0xff, 0xee, 0xdd, 0xcc, 0xbb, 0xaa, 0x99, 0x88, 0x77, 0x66, 0x55, 0x44, 0x33, 0x22, 0x11,
        0x00,
    ];
    h.observe_with_trace(1500, &trace_id);
    let out = rendered(&h, "xm", "lowercase test");
    assert!(out.contains(r#"trace_id="ffeeddccbbaa99887766554433221100""#));
    let trace_section = &out[out.find("trace_id=\"").unwrap()..];
    let end = trace_section.find('"').unwrap()
        + 1
        + trace_section[trace_section.find('"').unwrap() + 1..]
            .find('"')
            .unwrap();
    let label = &trace_section[..=end];
    for c in "ABCDEF".chars() {
        assert!(!label.contains(c), "uppercase hex in {label}");
    }
}

#[test]
fn connection_guard_increments_and_decrements() {
    let mut m = Metrics::new();
    let before = m.active_connections;
    let g = ConnectionGuard::new(&mut m);
    assert_eq!(m.active_connections, before + 1);
    g.release(&mut m);
    assert_eq!(m.active_connections, before);
}

#[test]
fn record_status_classes() {
    let mut m = Metrics::new();
    m.record_status(200, 1);
    m.record_status(201, 2);
    m.record_status(404, 3);
    m.record_status(500, 4);
    assert_eq!(m.requests_total.load(), 4);
    assert_eq!(m.requests_2xx.load(), 2);
    assert_eq!(m.requests_4xx.load(), 1);
    assert_eq!(m.requests_5xx.load(), 1);
}

fn page_texts(m: &Metrics) -> PageTexts {
    PageTexts {
        request: texts(&m.request_duration),
        upstream: texts(&m.upstream_duration),
        tls_handshake: texts(&m.tls_handshake_duration),
        classes: None,
    }
}

fn no_counters() -> Counters {
    Counters {
        panics: 0,
        audit_events: 0,
        audit_events_dropped: 0,
        traces_emitted: 0,
        traces_invalid: 0,
    }
}

#[test]
fn full_render_contains_all_sections() {
    let mut m = Metrics::new();
    m.record_status(200, 0);
    m.request_duration.observe(10_000);
    let t = page_texts(&m);
    let out = String::from_utf8(m.render(0, &no_counters(), &t).to_vec()).unwrap();
    assert!(out.contains("zion_requests_total 1"));
    assert!(out.contains("zion_active_connections 0"));
    assert!(out.contains("zion_request_duration_seconds_bucket"));
    assert!(out.contains("zion_upstream_duration_seconds_bucket"));
    assert!(out.contains("zion_tls_handshake_duration_seconds_bucket"));
}

#[test]
fn classes_close_the_page() {
    let mut m = Metrics::new();
    let mut t = page_texts(&m);
    t.classes = Some(vec![
        ClassCount { label: "residential".to_string(), count: 7 },
        ClassCount { label: "hosting".to_string(), count: 0 },
    ]);
    let out = String::from_utf8(m.render_at(1, 0, &no_counters(), &t).to_vec()).unwrap();
    assert!(out.ends_with(
        "# HELP zion_sovereign_classifications_total Per-class IP classifications since process start.\n\
         # TYPE zion_sovereign_classifications_total counter\n\
         zion_sovereign_classifications_total{class=\"residential\"} 7\n\
         zion_sovereign_classifications_total{class=\"hosting\"} 0\n"
    ));
}

#[test]
fn a_page_is_kept_for_a_second() {
    let mut m = Metrics::new();
    let t = page_texts(&m);
    let first = m.render_at(100, 0, &no_counters(), &t);
    m.record_status(200, 0);
    assert_eq!(m.render_at(100, 0, &no_counters(), &t), first);
    assert_ne!(m.render_at(101, 0, &no_counters(), &t), first);
}

#[test]
fn quantiles_are_bucket_bounds() {
    let mut h = LatencyHistogram::new();
    for _ in 0..9 {
        h.observe(900);
    }
    h.observe(5_000);
    assert_eq!(h.quantile_us(5), 1_000);
    assert_eq!(h.quantile_us(10), 8_000);
    assert!(h.quantile_us(5) <= h.quantile_us(10));
}

#[test]
fn exact_histogram_text() {
    let mut h = LatencyHistogram::new();
    h.observe_at(1_500, Some((0x0af7651916cd43dd, 0x8448eb211c80319c)), 1_700_000_000_042);
    let out = rendered(&h, "m", "Help.");
    assert!(out.starts_with("# HELP m Help.\n# TYPE m histogram\nm_bucket{le=\"0.001\"} 0\n"));
    assert!(
        out.contains(
            "m_bucket{le=\"0.002\"} 1 # {trace_id=\"0af7651916cd43dd8448eb211c80319c\"} 0.0015 1700000000.042\n"
        ),
        "{out}"
    );
    assert!(out.contains("m_sum 0.0015\n"), "{out}");
    assert!(out.contains("m_count 1\n"), "{out}");
}

#[test]
fn counters_wrap_and_add_up() {
    let mut c = ShardedCounter::new();
    c.fetch_add(3, 5);
    c.fetch_add(4, 6);
    assert_eq!(c.load(), 7);
    c.fetch_add(u64::MAX, 5);
    assert_eq!(c.load(), 6);
}

#[test]
fn uptime_counts_from_the_first_start() {
    let mut s = StartInstant { at: None };
    assert_eq!(uptime_secs(&s, 5_000_000), 0);
    record_start(&mut s, 1_000_000);
    record_start(&mut s, 9_000_000);
    assert_eq!(uptime_secs(&s, 11_500_000), 10);
    assert_eq!(uptime_secs(&s, 0), 0);
}

#[test]
fn pages_hold_decimal_numbers() {
    let mut p = Page::new();
    p.put("a ");
    p.put_u64(u64::MAX);
    p.put(" ");
    p.put_i64(-7);
    p.put_labelled("n", "l", "v", 3);
    assert_eq!(
        String::from_utf8(p.finish().to_vec()).unwrap(),
        "a 18446744073709551615 -7n{l=\"v\"} 3\n"
    );
}

#[test]
fn a_snapshot_shows_counters_and_quantiles() {
    let mut m = Metrics::new();
    m.record_status(200, 3);
    m.record_status(404, 4);
    m.cache_hits.fetch_add(5, 9);
    m.websocket_upgrades = 7;
    for _ in 0..9 {
        m.request_duration.observe(500);
    }
    m.request_duration.observe(3_000);
    let ranks = Ranks {
        p50: 5,
        p95: 10,
        p99: 10,
    };
    let none = Ranks {
        p50: 1,
        p95: 1,
        p99: 1,
    };
    let s = m.snapshot(&ranks, &none, &none);
    assert_eq!(s.requests_2xx, 1);
    assert_eq!(s.requests_4xx, 1);
    assert_eq!(s.requests_5xx, 0);
    assert_eq!(s.cache_hits, 5);
    assert_eq!(s.websocket_upgrades, 7);
    assert_eq!(s.request_p50_us, 1_000);
    assert_eq!(s.request_p95_us, 4_000);
    assert_eq!(s.upstream_p50_us, 0);
    assert_eq!(s.tls_p95_us, 0);
}

#[test]
fn the_clock_decides_on_the_page() {
    let mut m = Metrics::new();
    let t = page_texts(&m);
    let stale = m.render_at(1, 0, &no_counters(), &t);
    m.record_status(200, 0);
    let fresh = m.render(0, &no_counters(), &t);
    assert_ne!(fresh, stale);
    assert!(m.cached_render.0 > 1);
    assert_eq!(m.cached_render.1, fresh);
}
