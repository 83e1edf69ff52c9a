//! What the page of metrics shows.
use crate::metrics;
use crate::metrics::{HistogramV, Metrics, PageTexts, Ranks, Snapshot, TextsV};
use crate::observability;
use crate::observability::Counters;
use crate::page;
use crate::text;
use crate::words;
use vstd::arithmetic::power2::pow2;
use vstd::prelude::*;

verus! {

// ── Pages that grow ─────────────────────────────────────────────────────
/// The page begins with the other one, and both end with a line.
pub open spec fn continues(a: Seq<char>, b: Seq<char>) -> bool {
    &&& a.len() <= b.len()
    &&& b.subrange(0, a.len() as int) == a
    &&& finished(a) ==> finished(b)
}

/// The page ends with a line, or is empty.
pub open spec fn finished(a: Seq<char>) -> bool {
    a.len() == 0 || a.last() == '\n'
}

proof fn lemma_continues(a: Seq<char>, b: Seq<char>, c: Seq<char>, l: Seq<char>)
    requires
        continues(a, b),
        continues(b, c),
    ensures
        continues(a, c),
        words::has_lines(a, l) ==> words::has_lines(b, l),
{
    assert(c.subrange(0, a.len() as int) =~= a) by {
        assert forall|i: int| 0 <= i < a.len() implies c[i] == a[i] by {
            assert(c.subrange(0, b.len() as int)[i] == b[i]);
            assert(b.subrange(0, a.len() as int)[i] == a[i]);
        }
    }
    if words::has_lines(a, l) {
        let more = b.subrange(a.len() as int, b.len() as int);
        assert(b =~= a + more) by {
            assert forall|i: int| 0 <= i < a.len() implies b[i] == a[i] by {
                assert(b.subrange(0, a.len() as int)[i] == a[i]);
            }
        }
        words::lemma_lines_stay(a, l, more);
    }
}

proof fn lemma_kept(a: Seq<char>, b: Seq<char>, l: Seq<char>)
    requires
        continues(a, b),
        words::has_lines(a, l),
    ensures
        words::has_lines(b, l),
{
    assert(b.subrange(0, b.len() as int) =~= b);
    lemma_continues(a, b, b, l);
}

proof fn lemma_grown(a: Seq<char>, more: Seq<char>)
    requires
        more.len() > 0,
        more.last() == '\n',
    ensures
        continues(a, a + more),
{
    assert((a + more).subrange(0, a.len() as int) =~= a);
}

/// The line of a metric.
pub open spec fn line(name: Seq<char>, value: int) -> Seq<char> {
    name + " "@ + page::signed_dec(value) + "\n"@
}

/// The line of a labelled value of a metric.
pub open spec fn labelled_line(name: Seq<char>, label: Seq<char>, value: Seq<char>, n: nat) -> Seq<
    char,
> {
    name + "{"@ + label + "=\""@ + value + "\"} "@ + text::dec(n) + "\n"@
}

proof fn lemma_heading(acc: Seq<char>, name: Seq<char>, help: Seq<char>, kind: Seq<char>)
    ensures
        continues(acc, page::heading(acc, name, help, kind)),
        finished(page::heading(acc, name, help, kind)),
{
    let more = "# HELP "@ + name + " "@ + help + "\n# TYPE "@ + name + " "@ + kind + "\n"@;
    reveal_strlit("\n");
    assert(page::heading(acc, name, help, kind) =~= acc + more);
    assert(more.last() == '\n');
    lemma_grown(acc, more);
}

proof fn lemma_metric(acc: Seq<char>, name: Seq<char>, help: Seq<char>, kind: Seq<char>, value: int)
    ensures
        continues(acc, page::metric(acc, name, help, kind, value)),
        finished(page::metric(acc, name, help, kind, value)),
        words::has_lines(page::metric(acc, name, help, kind, value), line(name, value)),
{
    let h = page::heading(acc, name, help, kind);
    lemma_heading(acc, name, help, kind);
    let l = line(name, value);
    reveal_strlit("\n");
    let t = page::metric(acc, name, help, kind, value);
    assert(t =~= h + l);
    assert(l.last() == '\n');
    lemma_grown(h, l);
    lemma_continues(acc, h, t, l);
    assert(h + l + Seq::<char>::empty() =~= t);
    words::lemma_lines_between(h, l, Seq::<char>::empty());
}

proof fn lemma_labelled(acc: Seq<char>, name: Seq<char>, label: Seq<char>, value: Seq<char>, n: nat)
    ensures
        continues(acc, page::labelled(acc, name, label, value, n)),
        finished(page::labelled(acc, name, label, value, n)),
        finished(acc) ==> words::has_lines(
            page::labelled(acc, name, label, value, n),
            labelled_line(name, label, value, n),
        ),
{
    let l = labelled_line(name, label, value, n);
    reveal_strlit("\n");
    let t = page::labelled(acc, name, label, value, n);
    assert(t =~= acc + l);
    assert(l.last() == '\n');
    lemma_grown(acc, l);
    if finished(acc) {
        assert(acc + l + Seq::<char>::empty() =~= t);
        words::lemma_lines_between(acc, l, Seq::<char>::empty());
    }
}

// ── Requests ────────────────────────────────────────────────────────────
/// The page shows the counters of requests.
pub open spec fn shows_requests(t: Seq<char>, m: Metrics, generation: u64) -> bool {
    &&& words::has_lines(t, line("zion_requests_total"@, m.requests_total.value()))
    &&& words::has_lines(t, line("zion_config_generation"@, generation as int))
    &&& words::has_lines(
        t,
        labelled_line(
            "zion_requests_by_status"@,
            "class"@,
            "2xx"@,
            m.requests_2xx.value() as nat,
        ),
    )
    &&& words::has_lines(
        t,
        labelled_line(
            "zion_requests_by_status"@,
            "class"@,
            "4xx"@,
            m.requests_4xx.value() as nat,
        ),
    )
    &&& words::has_lines(
        t,
        labelled_line(
            "zion_requests_by_status"@,
            "class"@,
            "5xx"@,
            m.requests_5xx.value() as nat,
        ),
    )
    &&& words::has_lines(t, line("zion_waf_denied"@, m.waf_denied.value()))
    &&& words::has_lines(
        t,
        line("zion_waf_shadow_would_block"@, m.waf_shadow_would_block.value()),
    )
    &&& words::has_lines(t, line("zion_rate_limited"@, m.rate_limited.value()))
    &&& words::has_lines(t, line("zion_cache_hits"@, m.cache_hits.value()))
    &&& words::has_lines(t, line("zion_cache_misses"@, m.cache_misses.value()))
}

/// The page shows the counters of connections.
pub open spec fn shows_connections(t: Seq<char>, m: Metrics) -> bool {
    &&& words::has_lines(t, line("zion_websocket_upgrades"@, m.websocket_upgrades as int))
    &&& words::has_lines(t, line("zion_connections_total"@, m.connections_total as int))
    &&& words::has_lines(t, line("zion_tls_handshake_errors"@, m.tls_handshake_errors as int))
    &&& words::has_lines(t, line("zion_active_connections"@, m.active_connections as int))
}

/// The page shows the counters of the mesh.
pub open spec fn shows_mesh(t: Seq<char>, m: Metrics) -> bool {
    let dropped = "zion_mesh_claims_dropped_total"@;
    &&& words::has_lines(t, line("zion_mesh_claims_emitted_total"@, m.mesh_claims_emitted as int))
    &&& words::has_lines(
        t,
        line("zion_mesh_claims_received_total"@, m.mesh_claims_received as int),
    )
    &&& words::has_lines(
        t,
        labelled_line(dropped, "reason"@, "signature"@, m.mesh_claims_dropped_signature as nat),
    )
    &&& words::has_lines(
        t,
        labelled_line(dropped, "reason"@, "replay"@, m.mesh_claims_dropped_replay as nat),
    )
    &&& words::has_lines(
        t,
        labelled_line(dropped, "reason"@, "other"@, m.mesh_claims_dropped_other as nat),
    )
    &&& words::has_lines(
        t,
        labelled_line(dropped, "reason"@, "rate"@, m.mesh_claims_dropped_rate as nat),
    )
    &&& words::has_lines(t, line("zion_mesh_score_lookups_total"@, m.mesh_score_lookups as int))
    &&& words::has_lines(t, line("zion_mesh_gossip_bytes_in_total"@, m.mesh_gossip_bytes_in as int))
    &&& words::has_lines(
        t,
        line("zion_mesh_gossip_bytes_out_total"@, m.mesh_gossip_bytes_out as int),
    )
}

/// The page shows the counters of the observability layer.
pub open spec fn shows_counters(t: Seq<char>, c: Counters) -> bool {
    &&& words::has_lines(t, line("zion_panics_total"@, c.panics as int))
    &&& words::has_lines(t, line("zion_audit_events_total"@, c.audit_events as int))
    &&& words::has_lines(
        t,
        line("zion_audit_events_dropped_total"@, c.audit_events_dropped as int),
    )
    &&& words::has_lines(t, line("zion_traces_emitted_total"@, c.traces_emitted as int))
    &&& words::has_lines(t, line("zion_traces_invalid_total"@, c.traces_invalid as int))
}

proof fn lemma_requests(acc: Seq<char>, m: Metrics, generation: u64)
    requires
        finished(acc),
    ensures
        continues(acc, metrics::request_metrics(acc, m, generation)),
        shows_requests(metrics::request_metrics(acc, m, generation), m, generation),
{
    let by = "zion_requests_by_status"@;
    let t1 = page::metric(
        acc,
        "zion_requests_total"@,
        "Total HTTP requests processed."@,
        "counter"@,
        m.requests_total.value(),
    );
    lemma_metric(
        acc,
        "zion_requests_total"@,
        "Total HTTP requests processed."@,
        "counter"@,
        m.requests_total.value(),
    );
    let l1 = line("zion_requests_total"@, m.requests_total.value());
    let t2 = page::metric(
        t1,
        "zion_config_generation"@,
        "Successful zion.toml hot-reloads since process start."@,
        "counter"@,
        generation as int,
    );
    lemma_metric(
        t1,
        "zion_config_generation"@,
        "Successful zion.toml hot-reloads since process start."@,
        "counter"@,
        generation as int,
    );
    let l2 = line("zion_config_generation"@, generation as int);
    let t3 = page::heading(t2, by, "Requests by status class."@, "counter"@);
    lemma_heading(t2, by, "Requests by status class."@, "counter"@);
    let t4 = page::labelled(t3, by, "class"@, "2xx"@, m.requests_2xx.value() as nat);
    lemma_labelled(t3, by, "class"@, "2xx"@, m.requests_2xx.value() as nat);
    let l4 = labelled_line(by, "class"@, "2xx"@, m.requests_2xx.value() as nat);
    let t5 = page::labelled(t4, by, "class"@, "4xx"@, m.requests_4xx.value() as nat);
    lemma_labelled(t4, by, "class"@, "4xx"@, m.requests_4xx.value() as nat);
    let l5 = labelled_line(by, "class"@, "4xx"@, m.requests_4xx.value() as nat);
    let t6 = page::labelled(t5, by, "class"@, "5xx"@, m.requests_5xx.value() as nat);
    lemma_labelled(t5, by, "class"@, "5xx"@, m.requests_5xx.value() as nat);
    let l6 = labelled_line(by, "class"@, "5xx"@, m.requests_5xx.value() as nat);
    let t7 = page::metric(
        t6,
        "zion_waf_denied"@,
        "Requests denied by WAF."@,
        "counter"@,
        m.waf_denied.value(),
    );
    lemma_metric(
        t6,
        "zion_waf_denied"@,
        "Requests denied by WAF."@,
        "counter"@,
        m.waf_denied.value(),
    );
    let l7 = line("zion_waf_denied"@, m.waf_denied.value());
    let t8 = page::metric(
        t7,
        "zion_waf_shadow_would_block"@,
        "Requests the WAF would have denied if shadow mode were off."@,
        "counter"@,
        m.waf_shadow_would_block.value(),
    );
    lemma_metric(
        t7,
        "zion_waf_shadow_would_block"@,
        "Requests the WAF would have denied if shadow mode were off."@,
        "counter"@,
        m.waf_shadow_would_block.value(),
    );
    let l8 = line("zion_waf_shadow_would_block"@, m.waf_shadow_would_block.value());
    let t9 = page::metric(
        t8,
        "zion_rate_limited"@,
        "Requests denied by rate limiter."@,
        "counter"@,
        m.rate_limited.value(),
    );
    lemma_metric(
        t8,
        "zion_rate_limited"@,
        "Requests denied by rate limiter."@,
        "counter"@,
        m.rate_limited.value(),
    );
    let l9 = line("zion_rate_limited"@, m.rate_limited.value());
    let t10 = page::metric(
        t9,
        "zion_cache_hits"@,
        "Cache hits (served from RAM)."@,
        "counter"@,
        m.cache_hits.value(),
    );
    lemma_metric(
        t9,
        "zion_cache_hits"@,
        "Cache hits (served from RAM)."@,
        "counter"@,
        m.cache_hits.value(),
    );
    let l10 = line("zion_cache_hits"@, m.cache_hits.value());
    let t = metrics::request_metrics(acc, m, generation);
    lemma_metric(
        t10,
        "zion_cache_misses"@,
        "Cache misses (fetched from upstream)."@,
        "counter"@,
        m.cache_misses.value(),
    );
    lemma_kept(t10, t, l10);
    lemma_continues(t9, t10, t, l9);
    lemma_kept(t9, t, l9);
    lemma_continues(t8, t9, t, l8);
    lemma_kept(t8, t, l8);
    lemma_continues(t7, t8, t, l7);
    lemma_kept(t7, t, l7);
    lemma_continues(t6, t7, t, l6);
    lemma_kept(t6, t, l6);
    lemma_continues(t5, t6, t, l5);
    lemma_kept(t5, t, l5);
    lemma_continues(t4, t5, t, l4);
    lemma_kept(t4, t, l4);
    lemma_continues(t3, t4, t, l4);
    lemma_continues(t2, t3, t, l2);
    lemma_kept(t2, t, l2);
    lemma_continues(t1, t2, t, l1);
    lemma_kept(t1, t, l1);
    lemma_continues(acc, t1, t, l1);
}

proof fn lemma_connections(acc: Seq<char>, m: Metrics)
    ensures
        continues(acc, metrics::connection_metrics(acc, m)),
        finished(metrics::connection_metrics(acc, m)),
        shows_connections(metrics::connection_metrics(acc, m), m),
{
    let c = "counter"@;
    let t1 = page::metric(
        acc,
        "zion_websocket_upgrades"@,
        "WebSocket upgrades completed."@,
        c,
        m.websocket_upgrades as int,
    );
    lemma_metric(
        acc,
        "zion_websocket_upgrades"@,
        "WebSocket upgrades completed."@,
        c,
        m.websocket_upgrades as int,
    );
    let l1 = line("zion_websocket_upgrades"@, m.websocket_upgrades as int);
    let t2 = page::metric(
        t1,
        "zion_connections_total"@,
        "Total TLS connections accepted."@,
        c,
        m.connections_total as int,
    );
    lemma_metric(
        t1,
        "zion_connections_total"@,
        "Total TLS connections accepted."@,
        c,
        m.connections_total as int,
    );
    let l2 = line("zion_connections_total"@, m.connections_total as int);
    let t3 = page::metric(
        t2,
        "zion_tls_handshake_errors"@,
        "Failed TLS handshakes."@,
        c,
        m.tls_handshake_errors as int,
    );
    lemma_metric(
        t2,
        "zion_tls_handshake_errors"@,
        "Failed TLS handshakes."@,
        c,
        m.tls_handshake_errors as int,
    );
    let l3 = line("zion_tls_handshake_errors"@, m.tls_handshake_errors as int);
    let t = metrics::connection_metrics(acc, m);
    lemma_metric(
        t3,
        "zion_active_connections"@,
        "Currently active TLS connections."@,
        "gauge"@,
        m.active_connections as int,
    );
    lemma_kept(t3, t, l3);
    lemma_continues(t2, t3, t, l2);
    lemma_kept(t2, t, l2);
    lemma_continues(t1, t2, t, l1);
    lemma_kept(t1, t, l1);
    lemma_continues(acc, t1, t, l1);
}

proof fn lemma_mesh(acc: Seq<char>, m: Metrics)
    ensures
        continues(acc, metrics::mesh_metrics(acc, m)),
        shows_mesh(metrics::mesh_metrics(acc, m), m),
{
    let c = "counter"@;
    let d = "zion_mesh_claims_dropped_total"@;
    let t1 = page::metric(
        acc,
        "zion_mesh_claims_emitted_total"@,
        "Mesh claims published from this node."@,
        c,
        m.mesh_claims_emitted as int,
    );
    lemma_metric(
        acc,
        "zion_mesh_claims_emitted_total"@,
        "Mesh claims published from this node."@,
        c,
        m.mesh_claims_emitted as int,
    );
    let l1 = line("zion_mesh_claims_emitted_total"@, m.mesh_claims_emitted as int);
    let t2 = page::metric(
        t1,
        "zion_mesh_claims_received_total"@,
        "Mesh claims received and merged into local state."@,
        c,
        m.mesh_claims_received as int,
    );
    lemma_metric(
        t1,
        "zion_mesh_claims_received_total"@,
        "Mesh claims received and merged into local state."@,
        c,
        m.mesh_claims_received as int,
    );
    let l2 = line("zion_mesh_claims_received_total"@, m.mesh_claims_received as int);
    let t3 = page::heading(t2, d, "Inbound mesh envelopes rejected, by reason."@, c);
    lemma_heading(t2, d, "Inbound mesh envelopes rejected, by reason."@, c);
    let t4 = page::labelled(t3, d, "reason"@, "signature"@, m.mesh_claims_dropped_signature as nat);
    lemma_labelled(t3, d, "reason"@, "signature"@, m.mesh_claims_dropped_signature as nat);
    let l4 = labelled_line(d, "reason"@, "signature"@, m.mesh_claims_dropped_signature as nat);
    let t5 = page::labelled(t4, d, "reason"@, "replay"@, m.mesh_claims_dropped_replay as nat);
    lemma_labelled(t4, d, "reason"@, "replay"@, m.mesh_claims_dropped_replay as nat);
    let l5 = labelled_line(d, "reason"@, "replay"@, m.mesh_claims_dropped_replay as nat);
    let t6 = page::labelled(t5, d, "reason"@, "other"@, m.mesh_claims_dropped_other as nat);
    lemma_labelled(t5, d, "reason"@, "other"@, m.mesh_claims_dropped_other as nat);
    let l6 = labelled_line(d, "reason"@, "other"@, m.mesh_claims_dropped_other as nat);
    let t7 = page::labelled(t6, d, "reason"@, "rate"@, m.mesh_claims_dropped_rate as nat);
    lemma_labelled(t6, d, "reason"@, "rate"@, m.mesh_claims_dropped_rate as nat);
    let l7 = labelled_line(d, "reason"@, "rate"@, m.mesh_claims_dropped_rate as nat);
    let t8 = page::metric(
        t7,
        "zion_mesh_score_lookups_total"@,
        "Dispatcher hits that found a mesh score for the client IP."@,
        c,
        m.mesh_score_lookups as int,
    );
    lemma_metric(
        t7,
        "zion_mesh_score_lookups_total"@,
        "Dispatcher hits that found a mesh score for the client IP."@,
        c,
        m.mesh_score_lookups as int,
    );
    let l8 = line("zion_mesh_score_lookups_total"@, m.mesh_score_lookups as int);
    let t9 = page::metric(
        t8,
        "zion_mesh_gossip_bytes_in_total"@,
        "Total bytes received on the gossip socket."@,
        c,
        m.mesh_gossip_bytes_in as int,
    );
    lemma_metric(
        t8,
        "zion_mesh_gossip_bytes_in_total"@,
        "Total bytes received on the gossip socket."@,
        c,
        m.mesh_gossip_bytes_in as int,
    );
    let l9 = line("zion_mesh_gossip_bytes_in_total"@, m.mesh_gossip_bytes_in as int);
    let t = metrics::mesh_metrics(acc, m);
    lemma_metric(
        t9,
        "zion_mesh_gossip_bytes_out_total"@,
        "Total bytes sent on the gossip socket."@,
        c,
        m.mesh_gossip_bytes_out as int,
    );
    lemma_kept(t9, t, l9);
    lemma_continues(t8, t9, t, l8);
    lemma_kept(t8, t, l8);
    lemma_continues(t7, t8, t, l7);
    lemma_kept(t7, t, l7);
    lemma_continues(t6, t7, t, l6);
    lemma_kept(t6, t, l6);
    lemma_continues(t5, t6, t, l5);
    lemma_kept(t5, t, l5);
    lemma_continues(t4, t5, t, l4);
    lemma_kept(t4, t, l4);
    lemma_continues(t3, t4, t, l4);
    lemma_continues(t2, t3, t, l2);
    lemma_kept(t2, t, l2);
    lemma_continues(t1, t2, t, l1);
    lemma_kept(t1, t, l1);
    lemma_continues(acc, t1, t, l1);
}

proof fn lemma_counters(acc: Seq<char>, c: Counters)
    ensures
        continues(acc, observability::counters_text(acc, c)),
        shows_counters(observability::counters_text(acc, c), c),
{
    let k = "counter"@;
    let t1 = page::metric(
        acc,
        "zion_panics_total"@,
        "Total worker panics caught by the panic hook."@,
        k,
        c.panics as int,
    );
    lemma_metric(
        acc,
        "zion_panics_total"@,
        "Total worker panics caught by the panic hook."@,
        k,
        c.panics as int,
    );
    let l1 = line("zion_panics_total"@, c.panics as int);
    let t2 = page::metric(
        t1,
        "zion_audit_events_total"@,
        "Total audit-log events emitted (signed + chained)."@,
        k,
        c.audit_events as int,
    );
    lemma_metric(
        t1,
        "zion_audit_events_total"@,
        "Total audit-log events emitted (signed + chained)."@,
        k,
        c.audit_events as int,
    );
    let l2 = line("zion_audit_events_total"@, c.audit_events as int);
    let t3 = page::metric(
        t2,
        "zion_audit_events_dropped_total"@,
        "Audit events dropped because the writer queue was full."@,
        k,
        c.audit_events_dropped as int,
    );
    lemma_metric(
        t2,
        "zion_audit_events_dropped_total"@,
        "Audit events dropped because the writer queue was full."@,
        k,
        c.audit_events_dropped as int,
    );
    let l3 = line("zion_audit_events_dropped_total"@, c.audit_events_dropped as int);
    let t4 = page::metric(
        t3,
        "zion_traces_emitted_total"@,
        "Total request spans emitted (one per request)."@,
        k,
        c.traces_emitted as int,
    );
    lemma_metric(
        t3,
        "zion_traces_emitted_total"@,
        "Total request spans emitted (one per request)."@,
        k,
        c.traces_emitted as int,
    );
    let l4 = line("zion_traces_emitted_total"@, c.traces_emitted as int);
    let t = observability::counters_text(acc, c);
    lemma_metric(
        t4,
        "zion_traces_invalid_total"@,
        "Inbound traceparent headers rejected as malformed."@,
        k,
        c.traces_invalid as int,
    );
    lemma_kept(t4, t, l4);
    lemma_continues(t3, t4, t, l3);
    lemma_kept(t3, t, l3);
    lemma_continues(t2, t3, t, l2);
    lemma_kept(t2, t, l2);
    lemma_continues(t1, t2, t, l1);
    lemma_kept(t1, t, l1);
    lemma_continues(acc, t1, t, l1);
}

// ── Histograms ──────────────────────────────────────────────────────────
/// The page shows a bucket: its count stands behind its bound, and the line ends
/// there or goes on with an exemplar.
pub open spec fn shows_bucket(t: Seq<char>, name: Seq<char>, bound: Seq<char>, n: nat) -> bool {
    let l = name + "_bucket{le=\""@ + bound + "\"} "@ + text::dec(n);
    words::has_lines(t, l + "\n"@) || words::has_lines(t, l + " # {trace_id=\""@)
}

proof fn lemma_bucket(acc: Seq<char>, h: HistogramV, name: Seq<char>, t: TextsV, i: nat)
    requires
        finished(acc),
    ensures
        continues(acc, metrics::bucket_text(acc, h, name, t, i)),
        finished(metrics::bucket_text(acc, h, name, t, i)),
        shows_bucket(
            metrics::bucket_text(acc, h, name, t, i),
            name,
            metrics::bound_label(i as int),
            metrics::cumulative(h, i),
        ),
{
    let l = name + "_bucket{le=\""@ + metrics::bound_label(i as int) + "\"} "@ + text::dec(
        metrics::cumulative(h, i),
    );
    let e = h.exemplars[i as int];
    let b = metrics::bucket_text(acc, h, name, t, i);
    reveal_strlit("\n");
    if e.trace_hi == 0 && e.trace_lo == 0 {
        let more = l + "\n"@;
        assert(b =~= acc + more);
        lemma_grown(acc, more);
        assert(acc + more + Seq::<char>::empty() =~= b);
        words::lemma_lines_between(acc, more, Seq::<char>::empty());
    } else {
        let first = l + " # {trace_id=\""@;
        let rest = metrics::trace_text(e.trace_hi, e.trace_lo) + "\"} "@ + t.values[i as int] + " "@
            + text::dec((e.ts_ms / 1_000) as nat) + "."@ + metrics::padding(
            (e.ts_ms % 1_000) as nat,
        ) + text::dec((e.ts_ms % 1_000) as nat) + "\n"@;
        assert(b =~= acc + first + rest);
        assert(b =~= acc + (first + rest));
        lemma_grown(acc, first + rest);
        words::lemma_lines_between(acc, first, rest);
    }
}

proof fn lemma_buckets(acc: Seq<char>, h: HistogramV, name: Seq<char>, t: TextsV, n: nat, i: nat)
    requires
        finished(acc),
        i < n || n == 0,
    ensures
        continues(acc, metrics::buckets_text(acc, h, name, t, n)),
        finished(metrics::buckets_text(acc, h, name, t, n)),
        i < n ==> shows_bucket(
            metrics::buckets_text(acc, h, name, t, n),
            name,
            metrics::bound_label(i as int),
            metrics::cumulative(h, i),
        ),
    decreases n,
{
    if n == 0 {
        assert(acc.subrange(0, acc.len() as int) =~= acc);
    } else {
        let k = (n - 1) as nat;
        let p = metrics::buckets_text(acc, h, name, t, k);
        let b = metrics::buckets_text(acc, h, name, t, n);
        if i < k {
            lemma_buckets(acc, h, name, t, k, i);
        } else {
            lemma_buckets(acc, h, name, t, k, 0);
        }
        lemma_bucket(p, h, name, t, k);
        let l = name + "_bucket{le=\""@ + metrics::bound_label(i as int) + "\"} "@ + text::dec(
            metrics::cumulative(h, i),
        );
        lemma_continues(acc, p, b, l);
        assert(b.subrange(0, b.len() as int) =~= b);
        lemma_continues(p, b, b, l + "\n"@);
        lemma_continues(p, b, b, l + " # {trace_id=\""@);
    }
}

/// The page shows a histogram: every bucket, the sum, and the count.
pub open spec fn shows_histogram(t: Seq<char>, h: HistogramV, name: Seq<char>, sum: Seq<char>) -> bool {
    &&& forall|i: nat|
        i < 17 ==> shows_bucket(
            t,
            name,
            #[trigger] metrics::bound_label(i as int),
            metrics::cumulative(h, i),
        )
    &&& words::has_lines(t, name + "_sum "@ + sum + "\n"@)
    &&& words::has_lines(t, name + "_count "@ + text::dec(h.count as nat) + "\n"@)
}

proof fn lemma_histogram(acc: Seq<char>, h: HistogramV, name: Seq<char>, help: Seq<char>, t: TextsV)
    ensures
        continues(acc, metrics::histogram_text(acc, h, name, help, t)),
        finished(metrics::histogram_text(acc, h, name, help, t)),
        shows_histogram(metrics::histogram_text(acc, h, name, help, t), h, name, t.sum),
{
    let head = page::heading(acc, name, help, "histogram"@);
    lemma_heading(acc, name, help, "histogram"@);
    let b = metrics::buckets_text(head, h, name, t, 17);
    lemma_buckets(head, h, name, t, 17, 0);
    reveal_strlit("\n");
    let none = Seq::<char>::empty();
    let l1 = name + "_sum "@ + t.sum + "\n"@;
    let l2 = name + "_count "@ + text::dec(h.count as nat) + "\n"@;
    let all = metrics::histogram_text(acc, h, name, help, t);
    assert(l1.last() == '\n' && l2.last() == '\n');
    assert(all =~= b + l1 + l2);
    lemma_grown(b, l1);
    lemma_grown(b + l1, l2);
    words::lemma_lines_between(b, l1, l2);
    assert(b + l1 + l2 + none =~= all);
    words::lemma_lines_between(b + l1, l2, none);
    lemma_continues(b, b + l1, all, l1);
    lemma_continues(head, b, all, l1);
    lemma_continues(acc, head, all, l1);
    assert forall|i: nat| i < 17 implies shows_bucket(
        all,
        name,
        #[trigger] metrics::bound_label(i as int),
        metrics::cumulative(h, i),
    ) by {
        lemma_buckets(head, h, name, t, 17, i);
        lemma_bucket_kept(b, all, name, metrics::bound_label(i as int), metrics::cumulative(h, i));
    }
}

proof fn lemma_bucket_kept(a: Seq<char>, b: Seq<char>, name: Seq<char>, bound: Seq<char>, n: nat)
    requires
        continues(a, b),
        shows_bucket(a, name, bound, n),
    ensures
        shows_bucket(b, name, bound, n),
{
    let l = name + "_bucket{le=\""@ + bound + "\"} "@ + text::dec(n);
    if words::has_lines(a, l + "\n"@) {
        lemma_kept(a, b, l + "\n"@);
    } else {
        lemma_kept(a, b, l + " # {trace_id=\""@);
    }
}

proof fn lemma_histogram_kept(a: Seq<char>, b: Seq<char>, h: HistogramV, name: Seq<char>, sum: Seq<char>)
    requires
        continues(a, b),
        shows_histogram(a, h, name, sum),
    ensures
        shows_histogram(b, h, name, sum),
{
    lemma_kept(a, b, name + "_sum "@ + sum + "\n"@);
    lemma_kept(a, b, name + "_count "@ + text::dec(h.count as nat) + "\n"@);
    assert forall|i: nat| i < 17 implies shows_bucket(
        b,
        name,
        #[trigger] metrics::bound_label(i as int),
        metrics::cumulative(h, i),
    ) by {
        lemma_bucket_kept(a, b, name, metrics::bound_label(i as int), metrics::cumulative(h, i));
    }
}

/// The page shows the three histograms.
pub open spec fn shows_durations(t: Seq<char>, m: Metrics, texts: PageTexts) -> bool {
    &&& shows_histogram(
        t,
        m.request_duration@,
        "zion_request_duration_seconds"@,
        texts.request@.sum,
    )
    &&& shows_histogram(
        t,
        m.upstream_duration@,
        "zion_upstream_duration_seconds"@,
        texts.upstream@.sum,
    )
    &&& shows_histogram(
        t,
        m.tls_handshake_duration@,
        "zion_tls_handshake_duration_seconds"@,
        texts.tls_handshake@.sum,
    )
}

proof fn lemma_durations(acc: Seq<char>, m: Metrics, texts: PageTexts)
    ensures
        continues(acc, metrics::duration_metrics(acc, m, texts)),
        shows_durations(metrics::duration_metrics(acc, m, texts), m, texts),
{
    let n1 = "zion_request_duration_seconds"@;
    let n2 = "zion_upstream_duration_seconds"@;
    let n3 = "zion_tls_handshake_duration_seconds"@;
    let a = metrics::histogram_text(
        acc,
        m.request_duration@,
        n1,
        "Total request duration (client -> response sent)."@,
        texts.request@,
    );
    lemma_histogram(
        acc,
        m.request_duration@,
        n1,
        "Total request duration (client -> response sent)."@,
        texts.request@,
    );
    let b = metrics::histogram_text(
        a,
        m.upstream_duration@,
        n2,
        "Time spent waiting for upstream response."@,
        texts.upstream@,
    );
    lemma_histogram(
        a,
        m.upstream_duration@,
        n2,
        "Time spent waiting for upstream response."@,
        texts.upstream@,
    );
    let t = metrics::duration_metrics(acc, m, texts);
    lemma_histogram(
        b,
        m.tls_handshake_duration@,
        n3,
        "TLS handshake duration."@,
        texts.tls_handshake@,
    );
    lemma_continues(a, b, t, n1);
    lemma_continues(acc, a, t, n1);
    lemma_histogram_kept(a, t, m.request_duration@, n1, texts.request@.sum);
    lemma_histogram_kept(b, t, m.upstream_duration@, n2, texts.upstream@.sum);
}

// ── Classes of addresses ────────────────────────────────────────────────
proof fn lemma_classes(acc: Seq<char>, classes: Seq<(Seq<char>, u64)>, n: nat, i: int)
    requires
        finished(acc),
        n <= classes.len(),
    ensures
        continues(acc, metrics::classes_text(acc, classes, n)),
        0 <= i < n ==> words::has_lines(
            metrics::classes_text(acc, classes, n),
            labelled_line(
                "zion_sovereign_classifications_total"@,
                "class"@,
                classes[i].0,
                classes[i].1 as nat,
            ),
        ),
    decreases n,
{
    if n == 0 {
        assert(acc.subrange(0, acc.len() as int) =~= acc);
    } else {
        let k = (n - 1) as nat;
        let name = "zion_sovereign_classifications_total"@;
        let p = metrics::classes_text(acc, classes, k);
        let b = metrics::classes_text(acc, classes, n);
        lemma_classes(acc, classes, k, i);
        lemma_labelled(p, name, "class"@, classes[k as int].0, classes[k as int].1 as nat);
        let l = labelled_line(name, "class"@, classes[i].0, classes[i].1 as nat);
        lemma_continues(acc, p, b, l);
        if 0 <= i < k {
            lemma_kept(p, b, l);
        }
    }
}

proof fn lemma_class_metrics(acc: Seq<char>, t: PageTexts, i: int)
    ensures
        continues(acc, metrics::class_metrics(acc, t)),
        t.classes matches Some(classes) ==> 0 <= i < classes@.len() ==> words::has_lines(
            metrics::class_metrics(acc, t),
            labelled_line(
                "zion_sovereign_classifications_total"@,
                "class"@,
                classes@[i].label@,
                classes@[i].count as nat,
            ),
        ),
{
    match t.classes {
        Some(classes) => {
            let name = "zion_sovereign_classifications_total"@;
            let help = "Per-class IP classifications since process start."@;
            let head = page::heading(acc, name, help, "counter"@);
            lemma_heading(acc, name, help, "counter"@);
            let vs = text::views(classes@);
            lemma_classes(head, vs, classes@.len(), i);
            lemma_continues(acc, head, metrics::class_metrics(acc, t), name);
            if 0 <= i < classes@.len() {
                assert(vs[i] == classes@[i]@);
            }
        },
        None => {
            assert(acc.subrange(0, acc.len() as int) =~= acc);
        },
    }
}

// ── The page ────────────────────────────────────────────────────────────
proof fn lemma_requests_kept(a: Seq<char>, b: Seq<char>, m: Metrics, generation: u64)
    requires
        continues(a, b),
        shows_requests(a, m, generation),
    ensures
        shows_requests(b, m, generation),
{
    assert forall|l: Seq<char>| #[trigger] words::has_lines(a, l) implies words::has_lines(b, l) by {
        lemma_kept(a, b, l);
    }
}

proof fn lemma_connections_kept(a: Seq<char>, b: Seq<char>, m: Metrics)
    requires
        continues(a, b),
        shows_connections(a, m),
    ensures
        shows_connections(b, m),
{
    assert forall|l: Seq<char>| #[trigger] words::has_lines(a, l) implies words::has_lines(b, l) by {
        lemma_kept(a, b, l);
    }
}

proof fn lemma_mesh_kept(a: Seq<char>, b: Seq<char>, m: Metrics)
    requires
        continues(a, b),
        shows_mesh(a, m),
    ensures
        shows_mesh(b, m),
{
    assert forall|l: Seq<char>| #[trigger] words::has_lines(a, l) implies words::has_lines(b, l) by {
        lemma_kept(a, b, l);
    }
}

proof fn lemma_counters_kept(a: Seq<char>, b: Seq<char>, c: Counters)
    requires
        continues(a, b),
        shows_counters(a, c),
    ensures
        shows_counters(b, c),
{
    assert forall|l: Seq<char>| #[trigger] words::has_lines(a, l) implies words::has_lines(b, l) by {
        lemma_kept(a, b, l);
    }
}

proof fn lemma_durations_kept(a: Seq<char>, b: Seq<char>, m: Metrics, t: PageTexts)
    requires
        continues(a, b),
        shows_durations(a, m, t),
    ensures
        shows_durations(b, m, t),
{
    lemma_histogram_kept(
        a,
        b,
        m.request_duration@,
        "zion_request_duration_seconds"@,
        t.request@.sum,
    );
    lemma_histogram_kept(
        a,
        b,
        m.upstream_duration@,
        "zion_upstream_duration_seconds"@,
        t.upstream@.sum,
    );
    lemma_histogram_kept(
        a,
        b,
        m.tls_handshake_duration@,
        "zion_tls_handshake_duration_seconds"@,
        t.tls_handshake@.sum,
    );
}

/// Every counter, gauge and histogram stands on the page under its own name, and
/// every class of addresses under its label.
pub proof fn law_page_shows_everything(
    m: Metrics,
    generation: u64,
    counters: Counters,
    t: PageTexts,
    i: int,
)
    ensures
        ({
            let p = metrics::page_text(m, generation, counters, t);
            &&& shows_requests(p, m, generation)
            &&& shows_connections(p, m)
            &&& shows_mesh(p, m)
            &&& shows_durations(p, m, t)
            &&& shows_counters(p, counters)
            &&& t.classes matches Some(classes) ==> 0 <= i < classes@.len() ==> words::has_lines(
                p,
                labelled_line(
                    "zion_sovereign_classifications_total"@,
                    "class"@,
                    classes@[i].label@,
                    classes@[i].count as nat,
                ),
            )
        }),
{
    let none = Seq::<char>::empty();
    let a = metrics::request_metrics(none, m, generation);
    lemma_requests(none, m, generation);
    let b = metrics::connection_metrics(a, m);
    lemma_connections(a, m);
    let c = metrics::mesh_metrics(b, m);
    lemma_mesh(b, m);
    let d = metrics::duration_metrics(c, m, t);
    lemma_durations(c, m, t);
    let e = observability::counters_text(d, counters);
    lemma_counters(d, counters);
    let p = metrics::page_text(m, generation, counters, t);
    assert(p == metrics::class_metrics(e, t));
    lemma_class_metrics(e, t, i);
    lemma_counters_kept(e, p, counters);
    lemma_continues(d, e, p, none);
    lemma_durations_kept(d, p, m, t);
    lemma_continues(c, d, p, none);
    lemma_mesh_kept(c, p, m);
    lemma_continues(b, c, p, none);
    lemma_connections_kept(b, p, m);
    lemma_continues(a, b, p, none);
    lemma_requests_kept(a, p, m, generation);
}

// ── What is recorded ────────────────────────────────────────────────────
/// The count of a class of statuses stands behind its label.
pub open spec fn shows_class(p: Seq<char>, label: Seq<char>, n: nat) -> bool {
    words::has_lines(
        p,
        "zion_requests_by_status{class=\""@ + label + "\"} "@ + text::dec(n) + "\n"@,
    )
}

proof fn lemma_class_line(p: Seq<char>, label: Seq<char>, n: nat)
    requires
        words::has_lines(p, labelled_line("zion_requests_by_status"@, "class"@, label, n)),
    ensures
        shows_class(p, label, n),
{
    reveal_strlit("zion_requests_by_status");
    reveal_strlit("{");
    reveal_strlit("class");
    reveal_strlit("=\"");
    reveal_strlit("zion_requests_by_status{class=\"");
    assert("zion_requests_by_status"@ + "{"@ + "class"@ + "=\""@
        =~= "zion_requests_by_status{class=\""@);
}

/// A recorded status goes up by one behind the label of its class, and nothing
/// behind the others: `2xx` for 200 to 299, `4xx` for 400 to 499, `5xx` for 500
/// to 599. The total goes up by one.
pub proof fn law_recorded_status_is_shown(
    before: Metrics,
    after: Metrics,
    status: u16,
    generation: u64,
    counters: Counters,
    t: PageTexts,
)
    requires
        metrics::recorded(before, after, status),
        before.requests_total.value() < 0xffff_ffff_ffff_ffff,
        before.requests_2xx.value() < 0xffff_ffff_ffff_ffff,
        before.requests_4xx.value() < 0xffff_ffff_ffff_ffff,
        before.requests_5xx.value() < 0xffff_ffff_ffff_ffff,
    ensures
        ({
            let p = metrics::page_text(after, generation, counters, t);
            &&& words::has_lines(
                p,
                "zion_requests_total "@ + text::dec((before.requests_total.value() + 1) as nat)
                    + "\n"@,
            )
            &&& shows_class(
                p,
                "2xx"@,
                (before.requests_2xx.value() + if 200 <= status < 300 {
                    1int
                } else {
                    0int
                }) as nat,
            )
            &&& shows_class(
                p,
                "4xx"@,
                (before.requests_4xx.value() + if 400 <= status < 500 {
                    1int
                } else {
                    0int
                }) as nat,
            )
            &&& shows_class(
                p,
                "5xx"@,
                (before.requests_5xx.value() + if 500 <= status < 600 {
                    1int
                } else {
                    0int
                }) as nat,
            )
        }),
{
    law_page_shows_everything(after, generation, counters, t, 0);
    lemma_status_lines(metrics::page_text(after, generation, counters, t), after, generation);
    lemma_counts(before, after, status);
}

proof fn lemma_counts(before: Metrics, after: Metrics, status: u16)
    requires
        metrics::recorded(before, after, status),
        before.requests_total.value() < 0xffff_ffff_ffff_ffff,
        before.requests_2xx.value() < 0xffff_ffff_ffff_ffff,
        before.requests_4xx.value() < 0xffff_ffff_ffff_ffff,
        before.requests_5xx.value() < 0xffff_ffff_ffff_ffff,
    ensures
        after.requests_total.value() == before.requests_total.value() + 1,
        after.requests_2xx.value() == before.requests_2xx.value() + if 200 <= status < 300 {
            1int
        } else {
            0int
        },
        after.requests_4xx.value() == before.requests_4xx.value() + if 400 <= status < 500 {
            1int
        } else {
            0int
        },
        after.requests_5xx.value() == before.requests_5xx.value() + if 500 <= status < 600 {
            1int
        } else {
            0int
        },
{
}

proof fn lemma_status_lines(
    p: Seq<char>,
    m: Metrics,
    generation: u64,
)
    requires
        shows_requests(p, m, generation),
    ensures
        words::has_lines(
            p,
            "zion_requests_total "@ + text::dec(m.requests_total.value() as nat) + "\n"@,
        ),
        shows_class(p, "2xx"@, m.requests_2xx.value() as nat),
        shows_class(p, "4xx"@, m.requests_4xx.value() as nat),
        shows_class(p, "5xx"@, m.requests_5xx.value() as nat),
{
    lemma_class_line(p, "2xx"@, m.requests_2xx.value() as nat);
    lemma_class_line(p, "4xx"@, m.requests_4xx.value() as nat);
    lemma_class_line(p, "5xx"@, m.requests_5xx.value() as nat);
    assert("zion_requests_total"@ + " "@ =~= "zion_requests_total "@) by {
        reveal_strlit("zion_requests_total");
        reveal_strlit(" ");
        reveal_strlit("zion_requests_total ");
    }
}

/// The counts of the classes on the page of metrics that saw one status: 1
/// behind the label of its class, and 0 behind the others.
pub open spec fn shows_one_status(p: Seq<char>, status: u16) -> bool {
    let behind = |label: Seq<char>, n: Seq<char>|
        words::has_lines(
            p,
            "zion_requests_by_status{class=\""@ + label + "\"} "@ + n + "\n"@,
        );
    &&& behind(
        "2xx"@,
        if 200 <= status < 300 {
            "1"@
        } else {
            "0"@
        },
    )
    &&& behind(
        "4xx"@,
        if 400 <= status < 500 {
            "1"@
        } else {
            "0"@
        },
    )
    &&& behind(
        "5xx"@,
        if 500 <= status < 600 {
            "1"@
        } else {
            "0"@
        },
    )
}

proof fn lemma_one_status(p: Seq<char>, after: Metrics, before: Metrics, status: u16, generation: u64)
    requires
        shows_requests(p, after, generation),
        metrics::recorded(before, after, status),
        before.requests_total.value() == 0,
        before.requests_2xx.value() == 0,
        before.requests_4xx.value() == 0,
        before.requests_5xx.value() == 0,
    ensures
        shows_one_status(p, status),
{
    lemma_status_lines(p, after, generation);
    lemma_counts(before, after, status);
    reveal_strlit("1");
    reveal_strlit("0");
    assert(text::dec(1) =~= "1"@);
    assert(text::dec(0) =~= "0"@);
}

/// On fresh metrics one recorded status shows 1 behind the label of its class
/// and 0 behind the labels of the others.
pub proof fn law_first_status_is_shown_once(
    before: Metrics,
    after: Metrics,
    status: u16,
    generation: u64,
    counters: Counters,
    t: PageTexts,
)
    requires
        metrics::recorded(before, after, status),
        before.requests_total.value() == 0,
        before.requests_2xx.value() == 0,
        before.requests_4xx.value() == 0,
        before.requests_5xx.value() == 0,
    ensures
        shows_one_status(metrics::page_text(after, generation, counters, t), status),
{
    law_page_shows_everything(after, generation, counters, t, 0);
    lemma_one_status(
        metrics::page_text(after, generation, counters, t),
        after,
        before,
        status,
        generation,
    );
}

/// The page shows the numbers of the snapshot.
pub open spec fn shows_snapshot(p: Seq<char>, s: Snapshot) -> bool {
    &&& words::has_lines(p, line("zion_requests_total"@, s.requests_total as int))
    &&& shows_class(p, "2xx"@, s.requests_2xx as nat)
    &&& shows_class(p, "4xx"@, s.requests_4xx as nat)
    &&& shows_class(p, "5xx"@, s.requests_5xx as nat)
    &&& words::has_lines(p, line("zion_waf_denied"@, s.waf_denied as int))
    &&& words::has_lines(p, line("zion_waf_shadow_would_block"@, s.waf_shadow_would_block as int))
    &&& words::has_lines(p, line("zion_rate_limited"@, s.rate_limited as int))
    &&& words::has_lines(p, line("zion_cache_hits"@, s.cache_hits as int))
    &&& words::has_lines(p, line("zion_cache_misses"@, s.cache_misses as int))
    &&& words::has_lines(p, line("zion_websocket_upgrades"@, s.websocket_upgrades as int))
    &&& words::has_lines(p, line("zion_active_connections"@, s.active_connections as int))
    &&& words::has_lines(p, line("zion_connections_total"@, s.connections_total as int))
    &&& words::has_lines(p, line("zion_tls_handshake_errors"@, s.tls_handshake_errors as int))
}

proof fn lemma_snapshot(
    p: Seq<char>,
    m: Metrics,
    generation: u64,
    request: Ranks,
    upstream: Ranks,
    tls: Ranks,
)
    requires
        shows_requests(p, m, generation),
        shows_connections(p, m),
    ensures
        shows_snapshot(p, metrics::snapshot_of(m, request, upstream, tls)),
{
    lemma_status_lines(p, m, generation);
}

/// A snapshot and the page show the same numbers.
pub proof fn law_snapshot_agrees_with_the_page(
    m: Metrics,
    generation: u64,
    counters: Counters,
    t: PageTexts,
    request: Ranks,
    upstream: Ranks,
    tls: Ranks,
)
    ensures
        shows_snapshot(
            metrics::page_text(m, generation, counters, t),
            metrics::snapshot_of(m, request, upstream, tls),
        ),
{
    law_page_shows_everything(m, generation, counters, t, 0);
    lemma_snapshot(
        metrics::page_text(m, generation, counters, t),
        m,
        generation,
        request,
        upstream,
        tls,
    );
}


// ── Buckets ─────────────────────────────────────────────────────────────
/// An observation goes up by one in every bucket whose bound it does not exceed:
/// the i-th bound is a millisecond doubled i times, and the last bucket has none.
pub proof fn law_observation_counts_up_to_its_bound(
    h: HistogramV,
    us: u64,
    trace: Option<(u64, u64)>,
    ts_ms: u64,
    i: nat,
)
    requires
        h.buckets.len() == 17,
        i <= 16,
    ensures
        metrics::cumulative(metrics::observed(h, us, trace, ts_ms), i) == metrics::wrap(
            metrics::cumulative(h, i) + (if i == 16 || us <= 1_000 * pow2(i) {
                1int
            } else {
                0int
            }),
        ),
{
    let k = metrics::bucket_of(us as nat);
    metrics::law_value_lies_in_bucket(us as nat);
    let after = metrics::observed(h, us, trace, ts_ms);
    let old_count = h.buckets[k as int];
    let new_count = metrics::wrap(old_count + 1) as u64;
    lemma_bounds_double(i);
    if k <= i {
        metrics::lemma_total_update(h.buckets, k as int, new_count, i + 1);
        let t = metrics::total(h.buckets, i + 1) as int;
        metrics::lemma_wrap_add(t - old_count, old_count + 1);
        metrics::lemma_wrap_add(t, 1);
        if i < 16 {
            lemma_bounds_grow(k, i);
        }
    } else {
        lemma_total_beyond(h.buckets, k as int, new_count, i + 1);
        lemma_bounds_grow(i, (k - 1) as nat);
        metrics::lemma_wrap_add(metrics::total(h.buckets, i + 1) as int, 0);
    }
}

proof fn lemma_bounds_double(i: nat)
    ensures
        metrics::bound_us(i) == 1_000 * pow2(i),
    decreases i,
{
    if i == 0 {
        vstd::arithmetic::power2::lemma2_to64();
    } else {
        lemma_bounds_double((i - 1) as nat);
        vstd::arithmetic::power2::lemma_pow2_unfold(i);
    }
}

proof fn lemma_bounds_grow(a: nat, b: nat)
    requires
        a <= b,
    ensures
        metrics::bound_us(a) <= metrics::bound_us(b),
    decreases b - a,
{
    if a < b {
        lemma_bounds_grow(a, (b - 1) as nat);
    }
}

proof fn lemma_total_beyond(s: Seq<u64>, k: int, v: u64, n: nat)
    requires
        n <= k < s.len(),
    ensures
        metrics::total(s.update(k, v), n) == metrics::total(s, n),
    decreases n,
{
    if n > 0 {
        lemma_total_beyond(s, k, v, (n - 1) as nat);
    }
}

/// A number of milliseconds in seconds, with three digits behind the point.
pub open spec fn in_seconds(ms: nat) -> Seq<char> {
    let rest = ms % 1_000;
    text::dec(ms / 1_000) + "."@ + (if rest < 10 {
        "00"@
    } else if rest < 100 {
        "0"@
    } else {
        ""@
    }) + text::dec(rest)
}

/// The label of a bucket is its bound in seconds.
pub proof fn law_label_is_the_bound(i: nat)
    requires
        i < 16,
    ensures
        metrics::bound_label(i as int) == in_seconds(pow2(i)),
{
    vstd::arithmetic::power2::lemma2_to64();
    lemma_label(i, pow2(i));
}

proof fn lemma_label(i: nat, ms: nat)
    requires
        i < 16,
        ms == (if i == 0 {
            1
        } else if i == 1 {
            2
        } else if i == 2 {
            4
        } else if i == 3 {
            8
        } else if i == 4 {
            16
        } else if i == 5 {
            32
        } else if i == 6 {
            64
        } else if i == 7 {
            128
        } else if i == 8 {
            256
        } else if i == 9 {
            512
        } else if i == 10 {
            1024
        } else if i == 11 {
            2048
        } else if i == 12 {
            4096
        } else if i == 13 {
            8192
        } else if i == 14 {
            16384
        } else {
            32768int
        }),
    ensures
        metrics::bound_label(i as int) == in_seconds(ms),
{
    reveal_with_fuel(text::dec, 4);
    reveal_strlit(".");
    reveal_strlit("00");
    reveal_strlit("0");
    reveal_strlit("");
    reveal_strlit("0.001");
    reveal_strlit("0.002");
    reveal_strlit("0.004");
    reveal_strlit("0.008");
    reveal_strlit("0.016");
    reveal_strlit("0.032");
    reveal_strlit("0.064");
    reveal_strlit("0.128");
    reveal_strlit("0.256");
    reveal_strlit("0.512");
    reveal_strlit("1.024");
    reveal_strlit("2.048");
    reveal_strlit("4.096");
    reveal_strlit("8.192");
    reveal_strlit("16.384");
    reveal_strlit("32.768");
    assert(metrics::bound_label(i as int) =~= in_seconds(ms));
}

/// The milliseconds of a time are written in three digits.
pub proof fn law_milliseconds_take_three_digits(ms: nat)
    requires
        ms < 1_000,
    ensures
        (metrics::padding(ms) + text::dec(ms)).len() == 3,
        text::parse_dec(metrics::padding(ms) + text::dec(ms), 999) == Some(ms),
{
    reveal_strlit("00");
    reveal_strlit("0");
    reveal_strlit("");
    reveal_with_fuel(text::dec, 4);
    reveal_with_fuel(text::value_of, 4);
    text::lemma_dec(ms);
    text::law_dec_round_trip(ms, 999);
    let s = metrics::padding(ms) + text::dec(ms);
    if ms < 10 {
        assert(s =~= seq!['0', '0', text::digit_char(ms)]);
        assert(s.subrange(0, 2) =~= seq!['0', '0']);
        assert(seq!['0', '0'].subrange(0, 1) =~= seq!['0']);
        assert(seq!['0'].subrange(0, 0) =~= seq![]);
    } else if ms < 100 {
        assert(s =~= seq!['0', text::digit_char(ms / 10), text::digit_char(ms % 10)]);
        assert(s.subrange(0, 2) =~= seq!['0', text::digit_char(ms / 10)]);
        assert(s.subrange(0, 2).subrange(0, 1) =~= seq!['0']);
        assert(seq!['0'].subrange(0, 0) =~= seq![]);
    } else {
        assert(s =~= text::dec(ms));
    }
}

} // verus!
