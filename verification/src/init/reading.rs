//! What the written configuration files say when they are read again.
use super::toml;
use super::InitV;
use crate::text;
use crate::words;
use vstd::prelude::*;

verus! {

// ── The routes ──────────────────────────────────────────────────────────
/// One of the upstreams has the name.
pub open spec fn listed(ps: Seq<(Seq<char>, Seq<char>)>, name: Seq<char>) -> bool {
    exists|i: int| 0 <= i < ps.len() && (#[trigger] ps[i]).0 == name
}

/// The text ends with the lines.
pub open spec fn ends_with_lines(t: Seq<char>, l: Seq<char>) -> bool {
    words::lines_at(t, l, t.len() - l.len())
}

/// The route of everything to an upstream.
pub open spec fn catch_all_route(upstream: Seq<char>) -> Seq<char> {
    "[[route]]\npath     = \"/{*rest}\"\nupstream = \""@ + upstream + "\"\n"@
}

/// The route of the API to an upstream, with the firewall or without.
pub open spec fn api_route(upstream: Seq<char>, waf: bool) -> Seq<char> {
    "[[route]]\npath     = \"/api/{*rest}\"\nupstream = \""@ + upstream + "\"\n"@ + (if waf {
        "waf_profile = \"strict\"\n"@
    } else {
        ""@
    }) + "\n"@
}

proof fn lemma_ends(a: Seq<char>, l: Seq<char>)
    requires
        a.len() == 0 || a.last() == '\n',
    ensures
        ends_with_lines(a + l, l),
{
    let t = a + l;
    assert(t.subrange(t.len() - l.len(), t.len() as int) =~= l);
    if a.len() > 0 {
        assert(t[a.len() - 1] == a.last());
    }
}

proof fn lemma_head_ends(r: InitV, date: Seq<char>)
    ensures
        toml::head_text(r, date).len() > 0,
        toml::head_text(r, date).last() == '\n',
{
    reveal_strlit("# ── Upstreams ────────────────────────────────────────────\n");
}

proof fn lemma_upstreams_end(acc: Seq<char>, ps: Seq<(Seq<char>, Seq<char>)>, n: nat)
    requires
        acc.len() > 0,
        acc.last() == '\n',
    ensures
        ({
            let t = toml::upstreams_text(acc, ps, n);
            &&& t.len() >= acc.len()
            &&& t.subrange(0, acc.len() as int) == acc
            &&& t.last() == '\n'
        }),
    decreases n,
{
    if n > 0 {
        let k = (n - 1) as nat;
        lemma_upstreams_end(acc, ps, k);
        reveal_strlit("\"\nconnect_timeout_ms = 3000\nkeepalive          = 32\n\n");
        let p = toml::upstreams_text(acc, ps, k);
        let t = toml::upstreams_text(acc, ps, n);
        assert(t.subrange(0, acc.len() as int) =~= p.subrange(0, acc.len() as int));
    } else {
        assert(acc.subrange(0, acc.len() as int) =~= acc);
    }
}

proof fn lemma_waf_ends(acc: Seq<char>, r: InitV)
    requires
        acc.len() > 0,
        acc.last() == '\n',
    ensures
        ({
            let t = toml::waf_text(acc, r);
            &&& t.len() >= acc.len()
            &&& t.subrange(0, acc.len() as int) == acc
            &&& t.last() == '\n'
        }),
{
    assert(acc.subrange(0, acc.len() as int) =~= acc);
    if toml::waf_text(acc, r) != acc {
        reveal_strlit(
            "[waf_profile.strict]\nmax_body_mb                = 10\nmax_depth                  = 10\nmax_string_len             = 1048576\ndeny_unknown_content_types = true\nallowed_content_types      = [\"application/json\", \"multipart/form-data\"]\n\n",
        );
        assert(toml::waf_text(acc, r).subrange(0, acc.len() as int) =~= acc);
    }
}

/// The text before the routes ends with a line.
proof fn lemma_before_routes(r: InitV, date: Seq<char>) -> (acc: Seq<char>)
    ensures
        acc.len() > 0,
        acc.last() == '\n',
        toml::toml_text(r, date) == toml::routes_text(acc, r),
        acc.len() >= toml::head_text(r, date).len(),
        acc.subrange(0, toml::head_text(r, date).len() as int) == toml::head_text(r, date),
{
    let head = toml::head_text(r, date);
    lemma_head_ends(r, date);
    lemma_upstreams_end(head, r.upstreams, r.upstreams.len());
    let ups = toml::upstreams_text(head, r.upstreams, r.upstreams.len());
    lemma_waf_ends(ups, r);
    let acc = toml::waf_text(ups, r);
    assert(acc.subrange(0, head.len() as int) =~= ups.subrange(0, head.len() as int)) by {
        assert forall|i: int| 0 <= i < head.len() implies acc[i] == ups[i] by {
            assert(acc.subrange(0, ups.len() as int)[i] == ups[i]);
        }
    }
    acc
}

proof fn lemma_routes(acc: Seq<char>, r: InitV, all: Seq<char>)
    requires
        acc.len() > 0,
        acc.last() == '\n',
        all == toml::catchall_of(r.upstreams),
    ensures
        ends_with_lines(toml::routes_text(acc, r), catch_all_route(all)),
        toml::api_of(r.upstreams) matches Some(name) ==> ends_with_lines(
            toml::routes_text(acc, r),
            api_route(name, r.with_waf) + catch_all_route(all),
        ),
        toml::api_of(r.upstreams) is None ==> ends_with_lines(
            toml::routes_text(acc, r),
            "# ── Routes (matched via radix tree, ~30 ns lookup) ──────\n"@ + catch_all_route(all),
        ),
{
    let t = toml::routes_text(acc, r);
    let title = "# ── Routes (matched via radix tree, ~30 ns lookup) ──────\n"@;
    let head = acc + title;
    let last = catch_all_route(all);
    assert(head.last() == '\n') by {
        reveal_strlit("# ── Routes (matched via radix tree, ~30 ns lookup) ──────\n");
    }
    match toml::api_of(r.upstreams) {
        Some(name) => {
            let api = api_route(name, r.with_waf);
            assert(t =~= head + (api + last)) by {
                reveal_strlit("");
            }
            lemma_ends(head, api + last);
            assert(api.len() > 0 && api.last() == '\n') by {
                reveal_strlit("\n");
            }
            assert(t =~= (head + api) + last);
            assert((head + api).last() == '\n');
            lemma_ends(head + api, last);
        },
        None => {
            assert(t =~= acc + (title + last));
            lemma_ends(acc, title + last);
            assert(t =~= head + last);
            lemma_ends(head, last);
        },
    }
}

/// Everything that no other route takes goes to the upstream `frontend`, or to
/// the first where none has that name. An API has a route of its own, in front of
/// it, to the upstream `api`, else to `backend`, where that is another one; the
/// firewall guards it if it was asked for.
pub proof fn law_routes_name_their_upstreams(r: InitV, date: Seq<char>)
    requires
        r.upstreams.len() > 0,
    ensures
        ({
            let t = toml::toml_text(r, date);
            let ps = r.upstreams;
            let all = if listed(ps, "frontend"@) {
                "frontend"@
            } else {
                ps[0].0
            };
            &&& ends_with_lines(t, catch_all_route(all))
            &&& listed(ps, "api"@) && all != "api"@ ==> ends_with_lines(
                t,
                api_route("api"@, r.with_waf) + catch_all_route(all),
            )
            &&& !listed(ps, "api"@) && listed(ps, "backend"@) && all != "backend"@
                ==> ends_with_lines(
                t,
                api_route("backend"@, r.with_waf) + catch_all_route(all),
            )
            &&& (listed(ps, "api"@) && all == "api"@ || !listed(ps, "api"@) && (!listed(
                ps,
                "backend"@,
            ) || all == "backend"@)) ==> ends_with_lines(
                t,
                "# ── Routes (matched via radix tree, ~30 ns lookup) ──────\n"@ + catch_all_route(
                    all,
                ),
            )
        }),
{
    let acc = lemma_before_routes(r, date);
    lemma_routes(acc, r, toml::catchall_of(r.upstreams));
}

// ── The upstreams ───────────────────────────────────────────────────────
/// The table of an upstream.
pub open spec fn upstream_table(name: Seq<char>, target: Seq<char>) -> Seq<char> {
    "[upstream."@ + name + "]\nurl                = \"http://"@ + target
        + "\"\nconnect_timeout_ms = 3000\nkeepalive          = 32\n\n"@
}

proof fn lemma_upstream_stands(
    acc: Seq<char>,
    ps: Seq<(Seq<char>, Seq<char>)>,
    n: nat,
    i: int,
)
    requires
        acc.len() > 0,
        acc.last() == '\n',
        0 <= i < n,
    ensures
        words::has_lines(toml::upstreams_text(acc, ps, n), upstream_table(ps[i].0, ps[i].1)),
    decreases n,
{
    let k = (n - 1) as nat;
    let p = toml::upstreams_text(acc, ps, k);
    let table = upstream_table(ps[k as int].0, ps[k as int].1);
    let t = toml::upstreams_text(acc, ps, n);
    assert(t =~= p + table);
    if i == k {
        lemma_upstreams_end(acc, ps, k);
        assert(t =~= p + table + Seq::<char>::empty());
        words::lemma_lines_between(p, table, Seq::<char>::empty());
    } else {
        lemma_upstream_stands(acc, ps, k, i);
        words::lemma_lines_stay(p, upstream_table(ps[i].0, ps[i].1), table);
    }
}

proof fn lemma_routes_follow(acc: Seq<char>, r: InitV) -> (more: Seq<char>)
    ensures
        toml::routes_text(acc, r) == acc + more,
{
    let none = Seq::<char>::empty();
    let more = toml::routes_text(none, r);
    let t = toml::routes_text(acc, r);
    assert(t =~= acc + more);
    more
}

proof fn lemma_waf_follows(acc: Seq<char>, r: InitV) -> (more: Seq<char>)
    ensures
        toml::waf_text(acc, r) == acc + more,
{
    let none = Seq::<char>::empty();
    let more = toml::waf_text(none, r);
    assert(toml::waf_text(acc, r) =~= acc + more);
    more
}

/// Every upstream has its table, with the URL of its target.
pub proof fn law_upstreams_have_their_tables(r: InitV, date: Seq<char>, i: int)
    requires
        0 <= i < r.upstreams.len(),
    ensures
        words::has_lines(
            toml::toml_text(r, date),
            upstream_table(r.upstreams[i].0, r.upstreams[i].1),
        ),
{
    let head = toml::head_text(r, date);
    let l = upstream_table(r.upstreams[i].0, r.upstreams[i].1);
    lemma_head_ends(r, date);
    let ups = toml::upstreams_text(head, r.upstreams, r.upstreams.len());
    lemma_upstream_stands(head, r.upstreams, r.upstreams.len(), i);
    let a = lemma_waf_follows(ups, r);
    words::lemma_lines_stay(ups, l, a);
    let b = lemma_routes_follow(ups + a, r);
    words::lemma_lines_stay(ups + a, l, b);
}

// ── The listeners and the certificate ───────────────────────────────────
proof fn lemma_head_lines(
    before: Seq<char>,
    http: Seq<char>,
    https: Seq<char>,
    cert: Seq<char>,
    key: Seq<char>,
    after: Seq<char>,
)
    requires
        before.len() > 0,
        before.last() == '\n',
    ensures
        ({
            let t = before + "listen_http  = \"0.0.0.0:"@ + http
                + "\"\nlisten_https = \"0.0.0.0:"@ + https + "\"\n\n[tls]\ncert_path = \""@ + cert
                + "\"\nkey_path  = \""@ + key + "\"\n"@ + after;
            &&& words::has_lines(t, "listen_http  = \"0.0.0.0:"@ + http + "\"\n"@)
            &&& words::has_lines(t, "listen_https = \"0.0.0.0:"@ + https + "\"\n"@)
            &&& words::has_lines(t, "cert_path = \""@ + cert + "\"\n"@)
            &&& words::has_lines(t, "key_path  = \""@ + key + "\"\n"@)
        }),
{
    let close = "\"\n"@;
    reveal_strlit("\"\n");
    let a1 = "listen_http  = \"0.0.0.0:"@;
    let a2 = "listen_https = \"0.0.0.0:"@;
    let a3 = "cert_path = \""@;
    let a4 = "key_path  = \""@;
    let gap = "\n[tls]\n"@;
    assert("\"\nlisten_https = \"0.0.0.0:"@ =~= close + a2) by {
        reveal_strlit("\"\nlisten_https = \"0.0.0.0:");
        reveal_strlit("listen_https = \"0.0.0.0:");
    }
    assert("\"\n\n[tls]\ncert_path = \""@ =~= close + gap + a3) by {
        reveal_strlit("\"\n\n[tls]\ncert_path = \"");
        reveal_strlit("\n[tls]\n");
        reveal_strlit("cert_path = \"");
    }
    assert("\"\nkey_path  = \""@ =~= close + a4) by {
        reveal_strlit("\"\nkey_path  = \"");
        reveal_strlit("key_path  = \"");
    }
    let t = before + "listen_http  = \"0.0.0.0:"@ + http + "\"\nlisten_https = \"0.0.0.0:"@ + https
        + "\"\n\n[tls]\ncert_path = \""@ + cert + "\"\nkey_path  = \""@ + key + "\"\n"@ + after;
    let l1 = a1 + http + close;
    let l2 = a2 + https + close;
    let l3 = a3 + cert + close;
    let l4 = a4 + key + close;
    assert(close.last() == '\n');
    let t1 = before + l1;
    let t2 = t1 + l2;
    let t3 = t2 + gap;
    let t4 = t3 + l3;
    let t5 = t4 + l4;
    assert(gap.last() == '\n') by {
        reveal_strlit("\n[tls]\n");
    }
    assert(t =~= t5 + after);
    let none = Seq::<char>::empty();
    words::lemma_lines_between(before, l1, none);
    assert(before + l1 + none =~= t1);
    words::lemma_lines_between(t1, l2, none);
    assert(t1 + l2 + none =~= t2);
    words::lemma_lines_between(t3, l3, none);
    assert(t3 + l3 + none =~= t4);
    words::lemma_lines_between(t4, l4, none);
    assert(t4 + l4 + none =~= t5);
    words::lemma_lines_stay(t1, l1, l2);
    words::lemma_lines_stay(t2, l1, gap);
    words::lemma_lines_stay(t3, l1, l3);
    words::lemma_lines_stay(t4, l1, l4);
    words::lemma_lines_stay(t5, l1, after);
    words::lemma_lines_stay(t2, l2, gap);
    words::lemma_lines_stay(t3, l2, l3);
    words::lemma_lines_stay(t4, l2, l4);
    words::lemma_lines_stay(t5, l2, after);
    words::lemma_lines_stay(t4, l3, l4);
    words::lemma_lines_stay(t5, l3, after);
    words::lemma_lines_stay(t5, l4, after);
}

/// The file listens on the ports that were asked for, in the clear and over
/// HTTPS, and names the certificate and the key.
pub proof fn law_ports_and_certificate_are_written(r: InitV, date: Seq<char>)
    ensures
        ({
            let t = toml::toml_text(r, date);
            &&& words::has_lines(
                t,
                "listen_http  = \"0.0.0.0:"@ + text::dec(r.http_port as nat) + "\"\n"@,
            )
            &&& words::has_lines(
                t,
                "listen_https = \"0.0.0.0:"@ + text::dec(r.https_port as nat) + "\"\n"@,
            )
            &&& words::has_lines(t, "cert_path = \""@ + r.cert_path + "\"\n"@)
            &&& words::has_lines(t, "key_path  = \""@ + r.key_path + "\"\n"@)
        }),
{
    let head = toml::head_text(r, date);
    let http = text::dec(r.http_port as nat);
    let https = text::dec(r.https_port as nat);
    let title = "\n# Edit freely. See zion.example.toml for the full reference.\n\n[server]\n"@;
    let before = "# zion.toml — generated by `zion init` on "@ + date + "\n# Hostname: "@ + r.hostname
        + title;
    let rest = "hot_reload  = true\nmin_version = \"1.3\"\nalpn        = [\"h2\", \"http/1.1\"]\n\n"@;
    let after = rest + "# ── Upstreams ────────────────────────────────────────────\n"@;
    assert(title.len() > 0 && title.last() == '\n') by {
        reveal_strlit("\n# Edit freely. See zion.example.toml for the full reference.\n\n[server]\n");
    }
    assert("\n# Edit freely. See zion.example.toml for the full reference.\n\n[server]\nlisten_http  = \"0.0.0.0:"@
        =~= title + "listen_http  = \"0.0.0.0:"@) by {
        reveal_strlit("\n# Edit freely. See zion.example.toml for the full reference.\n\n[server]\n");
        reveal_strlit("listen_http  = \"0.0.0.0:");
        reveal_strlit(
            "\n# Edit freely. See zion.example.toml for the full reference.\n\n[server]\nlisten_http  = \"0.0.0.0:",
        );
    }
    assert("\"\nhot_reload  = true\nmin_version = \"1.3\"\nalpn        = [\"h2\", \"http/1.1\"]\n\n"@
        =~= "\"\n"@ + rest) by {
        reveal_strlit("\"\n");
        reveal_strlit(
            "\"\nhot_reload  = true\nmin_version = \"1.3\"\nalpn        = [\"h2\", \"http/1.1\"]\n\n",
        );
        reveal_strlit(
            "hot_reload  = true\nmin_version = \"1.3\"\nalpn        = [\"h2\", \"http/1.1\"]\n\n",
        );
    }
    lemma_head_lines(before, http, https, r.cert_path, r.key_path, after);
    let h = before + "listen_http  = \"0.0.0.0:"@ + http + "\"\nlisten_https = \"0.0.0.0:"@ + https
        + "\"\n\n[tls]\ncert_path = \""@ + r.cert_path + "\"\nkey_path  = \""@ + r.key_path + "\"\n"@
        + after;
    assert(head =~= h);
    let more = lemma_all_follows(r, date);
    words::lemma_lines_stay(head, "listen_http  = \"0.0.0.0:"@ + http + "\"\n"@, more);
    words::lemma_lines_stay(head, "listen_https = \"0.0.0.0:"@ + https + "\"\n"@, more);
    words::lemma_lines_stay(head, "cert_path = \""@ + r.cert_path + "\"\n"@, more);
    words::lemma_lines_stay(head, "key_path  = \""@ + r.key_path + "\"\n"@, more);
}

proof fn lemma_all_follows(r: InitV, date: Seq<char>) -> (more: Seq<char>)
    ensures
        toml::toml_text(r, date) == toml::head_text(r, date) + more,
{
    let head = toml::head_text(r, date);
    let acc = lemma_before_routes(r, date);
    let m = lemma_routes_follow(acc, r);
    let more = acc.subrange(head.len() as int, acc.len() as int) + m;
    assert(acc =~= head + acc.subrange(head.len() as int, acc.len() as int));
    assert(toml::toml_text(r, date) =~= head + more);
    more
}

// ── One-shot runs ───────────────────────────────────────────────────────
/// The file of a one-shot run listens on its ports, names its certificate and
/// key, and sends everything to its upstream.
pub proof fn law_one_shot_file_serves_its_upstream(
    pid: nat,
    http_port: nat,
    https_port: nat,
    cert: Seq<char>,
    key: Seq<char>,
    upstream: Seq<char>,
)
    ensures
        ({
            let t = toml::auto_text(pid, http_port, https_port, cert, key, upstream);
            &&& words::has_lines(
                t,
                "listen_http  = \"0.0.0.0:"@ + text::dec(http_port) + "\"\n"@,
            )
            &&& words::has_lines(
                t,
                "listen_https = \"0.0.0.0:"@ + text::dec(https_port) + "\"\n"@,
            )
            &&& words::has_lines(t, "cert_path = \""@ + cert + "\"\n"@)
            &&& words::has_lines(t, "key_path  = \""@ + key + "\"\n"@)
            &&& ends_with_lines(
                t,
                upstream_table("backend"@, upstream) + catch_all_route("backend"@),
            )
        }),
{
    let http = text::dec(http_port);
    let https = text::dec(https_port);
    let title = "; regenerated on every `zion auto` invocation.\n\n[server]\n"@;
    let before = "# zion auto-mode — generated for one-shot dev / demo use.\n# Tied to PID "@
        + text::dec(pid) + title;
    let rest = "hot_reload  = false\nmin_version = \"1.3\"\nalpn        = [\"h2\", \"http/1.1\"]\n\n"@;
    let last = upstream_table("backend"@, upstream) + catch_all_route("backend"@);
    let after = rest + last;
    lemma_one_shot_title(title);
    lemma_one_shot_rest(rest);
    lemma_one_shot_route();
    let up1 = "[upstream."@ + "backend"@ + "]\nurl                = \"http://"@;
    let up2 = "\"\nconnect_timeout_ms = 3000\nkeepalive          = 32\n\n"@;
    let route = catch_all_route("backend"@);
    let front = before + "listen_http  = \"0.0.0.0:"@ + http + "\"\nlisten_https = \"0.0.0.0:"@ + https
        + "\"\n\n[tls]\ncert_path = \""@ + cert + "\"\nkey_path  = \""@ + key;
    let t = toml::auto_text(pid, http_port, https_port, cert, key, upstream);
    assert(last == up1 + upstream + up2 + route);
    assert(t =~= front + ("\"\n"@ + rest + up1) + upstream + (up2 + route)) by {
        lemma_one_shot_front(pid, http, https, cert, key);
    }
    lemma_regroup(front, "\"\n"@, rest, up1, upstream, up2, route);
    assert(t == front + "\"\n"@ + after);
    assert(t == (front + "\"\n"@ + rest) + last);
    lemma_head_lines(before, http, https, cert, key, after);
    assert((front + "\"\n"@ + rest).last() == '\n');
    lemma_ends(front + "\"\n"@ + rest, last);
}

proof fn lemma_regroup(
    a: Seq<char>,
    b: Seq<char>,
    c: Seq<char>,
    d: Seq<char>,
    e: Seq<char>,
    f: Seq<char>,
    g: Seq<char>,
)
    ensures
        a + (b + c + d) + e + (f + g) == a + b + (c + (d + e + f + g)),
        a + (b + c + d) + e + (f + g) == (a + b + c) + (d + e + f + g),
{
    assert(a + (b + c + d) + e + (f + g) =~= a + b + (c + (d + e + f + g)));
    assert(a + (b + c + d) + e + (f + g) =~= (a + b + c) + (d + e + f + g));
}

proof fn lemma_one_shot_front(
    pid: nat,
    http: Seq<char>,
    https: Seq<char>,
    cert: Seq<char>,
    key: Seq<char>,
)
    ensures
        ({
            let title = "; regenerated on every `zion auto` invocation.\n\n[server]\n"@;
            let top = "# zion auto-mode — generated for one-shot dev / demo use.\n# Tied to PID "@
                + text::dec(pid);
            top
                + "; regenerated on every `zion auto` invocation.\n\n[server]\nlisten_http  = \"0.0.0.0:"@
                == top + title + "listen_http  = \"0.0.0.0:"@
        }),
{
    let title = "; regenerated on every `zion auto` invocation.\n\n[server]\n"@;
    let top = "# zion auto-mode — generated for one-shot dev / demo use.\n# Tied to PID "@ + text::dec(
        pid,
    );
    lemma_one_shot_title(title);
    assert(top + (title + "listen_http  = \"0.0.0.0:"@) =~= top + title + "listen_http  = \"0.0.0.0:"@);
}

proof fn lemma_one_shot_title(title: Seq<char>)
    requires
        title == "; regenerated on every `zion auto` invocation.\n\n[server]\n"@,
    ensures
        title.len() > 0,
        title.last() == '\n',
        "; regenerated on every `zion auto` invocation.\n\n[server]\nlisten_http  = \"0.0.0.0:"@
            == title + "listen_http  = \"0.0.0.0:"@,
{
    reveal_strlit("; regenerated on every `zion auto` invocation.\n\n[server]\n");
    reveal_strlit("listen_http  = \"0.0.0.0:");
    reveal_strlit(
        "; regenerated on every `zion auto` invocation.\n\n[server]\nlisten_http  = \"0.0.0.0:",
    );
    assert("; regenerated on every `zion auto` invocation.\n\n[server]\nlisten_http  = \"0.0.0.0:"@
        =~= title + "listen_http  = \"0.0.0.0:"@);
}

proof fn lemma_one_shot_rest(rest: Seq<char>)
    requires
        rest
            == "hot_reload  = false\nmin_version = \"1.3\"\nalpn        = [\"h2\", \"http/1.1\"]\n\n"@,
    ensures
        rest.len() > 0,
        rest.last() == '\n',
        "\"\nhot_reload  = false\nmin_version = \"1.3\"\nalpn        = [\"h2\", \"http/1.1\"]\n\n[upstream.backend]\nurl                = \"http://"@
            == "\"\n"@ + rest + ("[upstream."@ + "backend"@ + "]\nurl                = \"http://"@),
{
    reveal_strlit("\"\n");
    reveal_strlit("[upstream.");
    reveal_strlit("backend");
    reveal_strlit("]\nurl                = \"http://");
    reveal_strlit(
        "\"\nhot_reload  = false\nmin_version = \"1.3\"\nalpn        = [\"h2\", \"http/1.1\"]\n\n[upstream.backend]\nurl                = \"http://",
    );
    reveal_strlit(
        "hot_reload  = false\nmin_version = \"1.3\"\nalpn        = [\"h2\", \"http/1.1\"]\n\n",
    );
    assert("\"\nhot_reload  = false\nmin_version = \"1.3\"\nalpn        = [\"h2\", \"http/1.1\"]\n\n[upstream.backend]\nurl                = \"http://"@
        =~= "\"\n"@ + rest + ("[upstream."@ + "backend"@ + "]\nurl                = \"http://"@));
}

proof fn lemma_one_shot_route()
    ensures
        "\"\nconnect_timeout_ms = 3000\nkeepalive          = 32\n\n[[route]]\npath     = \"/{*rest}\"\nupstream = \"backend\"\n"@
            == "\"\nconnect_timeout_ms = 3000\nkeepalive          = 32\n\n"@ + catch_all_route(
            "backend"@,
        ),
{
    reveal_strlit("\"\n");
    reveal_strlit("backend");
    reveal_strlit("[[route]]\npath     = \"/{*rest}\"\nupstream = \"");
    reveal_strlit("\"\nconnect_timeout_ms = 3000\nkeepalive          = 32\n\n");
    reveal_strlit(
        "\"\nconnect_timeout_ms = 3000\nkeepalive          = 32\n\n[[route]]\npath     = \"/{*rest}\"\nupstream = \"backend\"\n",
    );
    assert("\"\nconnect_timeout_ms = 3000\nkeepalive          = 32\n\n[[route]]\npath     = \"/{*rest}\"\nupstream = \"backend\"\n"@
        =~= "\"\nconnect_timeout_ms = 3000\nkeepalive          = 32\n\n"@ + catch_all_route(
        "backend"@,
    ));
}

} // verus!
