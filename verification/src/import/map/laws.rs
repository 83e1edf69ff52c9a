//! What holds of every document that a conversion makes.
use super::directives;
use super::listen;
use super::location;
use super::location::{CtxV, SharedV, WorldV};
use super::server;
use super::server::ScanV;
use super::servers;
use super::servers::{HostsV, KeptV, RedirectKind};
use super::tls;
use super::units;
use super::upstream;
use super::upstream::RegV;
use super::{DocV, MetV, RouteV, UpstreamV};
use crate::import::model::{LocMod, LocationV, ModelV, PoolV, ServerV};
use crate::import::nginx::Dir;
use crate::import::Note;
use crate::text;
use vstd::prelude::*;

verus! {

// ── Host names ──────────────────────────────────────────────────────────
/// A name that stands for every host.
pub open spec fn catch_all(raw: Seq<char>) -> bool {
    text::lower(raw) == "_"@ || raw.len() == 0
}

/// A host that a route can have: exact, or `*.` before an exact one.
pub open spec fn route_host(h: Seq<char>) -> bool {
    servers::bare_host(h) || exists|d: Seq<char>| servers::bare_host(d) && h == #[trigger] ("*."@ + d)
}

pub open spec fn route_hosts(hs: Seq<Seq<char>>) -> bool {
    forall|i: int| 0 <= i < hs.len() ==> route_host(#[trigger] hs[i])
}

proof fn lemma_names(names: Seq<Seq<char>>, n: nat, line: int, notes: Seq<Note>)
    requires
        n <= names.len(),
    ensures
        ({
            let st = servers::names_of(names, n, line, notes);
            &&& route_hosts(st.hosts)
            &&& n > 0 && st.hosts.len() == 0 && !st.dropped ==> st.catchall
            &&& st.catchall ==> exists|i: int| 0 <= i < n && catch_all(#[trigger] names[i])
        }),
    decreases n,
{
    if n > 0 {
        let k = (n - 1) as nat;
        lemma_names(names, k, line, notes);
        let s0 = servers::names_of(names, k, line, notes);
        let s1 = servers::names_of(names, n, line, notes);
        let name = text::lower(names[k as int]);
        assert(name.len() == names[k as int].len());
        if s1.catchall {
            if s0.catchall {
                let i = choose|i: int| 0 <= i < k && catch_all(#[trigger] names[i]);
                assert(catch_all(names[i]));
            } else {
                assert(catch_all(names[k as int]));
            }
        }
        if let Some(domain) = text::strip_prefix_of(name, "*."@) {
            assert(name =~= "*."@ + domain);
        }
        assert forall|i: int| 0 <= i < s1.hosts.len() implies route_host(#[trigger] s1.hosts[i]) by {
            if i < s0.hosts.len() {
                assert(s1.hosts[i] == s0.hosts[i]);
            } else if let Some(domain) = text::strip_prefix_of(name, "*."@) {
                assert(s1.hosts[i] == "*."@ + domain);
            } else if let Some(domain) = text::strip_prefix_of(name, "."@) {
                assert(s1.hosts[i] == domain || s1.hosts[i] == "*."@ + domain);
            }
        }
    }
}

proof fn lemma_dedup(s: Seq<Seq<char>>, n: nat)
    requires
        n <= s.len(),
        route_hosts(s),
    ensures
        route_hosts(servers::dedup_n(s, n)),
        n > 0 ==> servers::dedup_n(s, n).len() > 0,
    decreases n,
{
    if n > 0 {
        lemma_dedup(s, (n - 1) as nat);
        let p = servers::dedup_n(s, (n - 1) as nat);
        let q = servers::dedup_n(s, n);
        assert forall|i: int| 0 <= i < q.len() implies route_host(#[trigger] q[i]) by {
            if i < p.len() {
                assert(q[i] == p[i]);
            } else {
                assert(q[i] == s[n - 1]);
            }
        }
    }
}

/// A server answers for every host only where its configuration says so: it
/// names none, or one of its names is the catch-all. A server of which no name
/// can be kept is skipped, so it never takes the requests of other hosts.
pub proof fn law_hostless_servers_are_catch_alls(s: ServerV, notes: Seq<Note>)
    ensures
        servers::hosts_of(s, notes).0 is Shared ==> s.names.len() == 0 || exists|i: int|
            0 <= i < s.names.len() && catch_all(#[trigger] s.names[i]),
        servers::hosts_of(s, notes).0 matches HostsV::Hosts(hs) ==> hs.len() > 0 && route_hosts(hs),
{
    lemma_names(s.names, s.names.len(), s.names_line, notes);
    let st = servers::names_of(s.names, s.names.len(), s.names_line, notes);
    lemma_dedup(st.hosts, st.hosts.len());
}

/// A server is dropped as a redirect only where it redirects to the host of the
/// request, and serves nothing itself.
pub proof fn law_only_same_host_redirects_are_dropped(s: ServerV)
    requires
        servers::redirect_kind_of(s) != RedirectKind::No,
    ensures
        s.locations.len() == 0,
        !servers::tls_of(s),
        exists|i: int|
            0 <= i < s.directives.len() && (#[trigger] s.directives[i]).name == "return"@
                && s.directives[i].args.len() > 1 && servers::same_host_target(
                s.directives[i].args[1],
            ),
{
    lemma_redirect(s.directives, 0);
}

proof fn lemma_redirect(ds: Seq<Dir>, i: nat)
    requires
        servers::redirect_from(ds, i) != RedirectKind::No,
    ensures
        exists|j: int|
            0 <= j < ds.len() && (#[trigger] ds[j]).name == "return"@ && ds[j].args.len() > 1
                && servers::same_host_target(ds[j].args[1]),
    decreases ds.len() - i,
{
    if i < ds.len() {
        if servers::redirect_of(ds[i as int]) is None {
            lemma_redirect(ds, i + 1);
        } else {
            assert(ds[i as int].name == "return"@);
        }
    }
}

// ── The document ────────────────────────────────────────────────────────
/// A name that the registry knows: of a direct target, or of a pool.
pub open spec fn registered(reg: RegV, name: Seq<char>) -> bool {
    ||| exists|i: int| 0 <= i < reg.synth.len() && (#[trigger] reg.synth[i]).name == name
    ||| exists|i: int|
        0 <= i < reg.pools.len() && upstream::safe_name((#[trigger] reg.pools[i]).name) == name
}

spec fn good_route(r: RouteV, reg: RegV) -> bool {
    &&& r.serve_dir is Some || registered(reg, r.upstream)
    &&& r.hosts matches Some(hs) ==> route_hosts(hs)
}

spec fn ranges(ts: Seq<Seq<char>>) -> bool {
    forall|i: int| 0 <= i < ts.len() ==> units::cidr(#[trigger] ts[i])
}

spec fn good(w: WorldV, pools: Seq<PoolV>) -> bool {
    &&& w.reg.pools == pools
    &&& ranges(w.doc.trusted_proxies)
    &&& forall|i: int| 0 <= i < w.doc.routes.len() ==> good_route(#[trigger] w.doc.routes[i], w.reg)
}

spec fn good_hosts(hosts: Option<Seq<Seq<char>>>) -> bool {
    hosts matches Some(hs) ==> route_hosts(hs)
}

proof fn lemma_resolve(
    reg: RegV,
    scheme: Seq<char>,
    target: Seq<char>,
    timeout: Option<u64>,
    line: int,
    notes: Seq<Note>,
)
    ensures
        ({
            let r = upstream::resolve_of(reg, scheme, target, timeout, line, notes);
            &&& registered(r.reg, r.name)
            &&& r.reg.pools == reg.pools
            &&& forall|n: Seq<char>| #[trigger] registered(reg, n) ==> registered(r.reg, n)
        }),
{
    let r = upstream::resolve_of(reg, scheme, target, timeout, line, notes);
    if upstream::pool_named(reg.pools, target) {
        let k = choose|k: int| 0 <= k < reg.pools.len() && (#[trigger] reg.pools[k]).name == target;
        assert(upstream::safe_name(r.reg.pools[k].name) == r.name);
    } else {
        let url = scheme + "://"@ + target;
        let i = upstream::synth_index(reg.synth, url, 0) as int;
        if i >= reg.synth.len() {
            assert(r.reg.synth[reg.synth.len() as int].name == r.name);
        } else {
            assert(r.reg.synth[i].name == r.name);
        }
    }
    assert forall|n: Seq<char>| #[trigger] registered(reg, n) implies registered(r.reg, n) by {
        if exists|i: int| 0 <= i < reg.synth.len() && (#[trigger] reg.synth[i]).name == n {
            let i = choose|i: int| 0 <= i < reg.synth.len() && (#[trigger] reg.synth[i]).name == n;
            assert(r.reg.synth[i].name == n);
        } else {
            let i = choose|i: int|
                0 <= i < reg.pools.len() && upstream::safe_name((#[trigger] reg.pools[i]).name)
                    == n;
            assert(upstream::safe_name(r.reg.pools[i].name) == n);
        }
    }
}

proof fn lemma_location(
    w: WorldV,
    loc: LocationV,
    hosts: Option<Seq<Seq<char>>>,
    ctx: CtxV,
    m: ModelV,
    pools: Seq<PoolV>,
)
    requires
        good(w, pools),
        good_hosts(hosts),
    ensures
        good(location::location_step(w, loc, hosts, ctx, m), pools),
{
    let w1 = location::location_step(w, loc, hosts, ctx, m);
    if loc.modifier != LocMod::Regex {
        let (st, sh) = location::loc_scan(
            location::empty_loc(ctx.waf),
            SharedV { cap: w.doc.waf_body_mb, agg: w.agg, notes: w.notes },
            loc.directives,
            loc.directives.len(),
            m,
        );
        if let Some(p) = st.proxy {
            let connect = if st.connect is Some {
                st.connect
            } else {
                ctx.connect_ms
            };
            let (path, n1) = location::path_of(loc, sh.notes);
            let inherited = if st.has_set_header {
                st.hdr_annotations
            } else {
                ctx.hdr_annotations
            };
            let n2 = location::uri_part(p, loc, inherited, n1).1;
            let n3 = location::csp_of(st, ctx, loc, n2).1;
            lemma_resolve(w.reg, p.scheme, p.target, connect, p.line, n3);
        }
    }
    assert forall|i: int| 0 <= i < w1.doc.routes.len() implies good_route(
        #[trigger] w1.doc.routes[i],
        w1.reg,
    ) by {
        if i < w.doc.routes.len() {
            assert(w1.doc.routes[i] == w.doc.routes[i]);
            assert(good_route(w.doc.routes[i], w.reg));
        }
    }
}

proof fn lemma_locations(
    w: WorldV,
    ls: Seq<LocationV>,
    n: nat,
    hosts: Option<Seq<Seq<char>>>,
    ctx: CtxV,
    m: ModelV,
    pools: Seq<PoolV>,
)
    requires
        good(w, pools),
        good_hosts(hosts),
    ensures
        good(server::locations_of(w, ls, n, hosts, ctx, m), pools),
    decreases n,
{
    if n > 0 {
        let k = (n - 1) as nat;
        lemma_locations(w, ls, k, hosts, ctx, m, pools);
        lemma_location(
            server::locations_of(w, ls, k, hosts, ctx, m),
            ls[k as int],
            hosts,
            ctx,
            m,
            pools,
        );
    }
}

proof fn lemma_scan(s: ScanV, ds: Seq<Dir>, n: nat, m: ModelV)
    requires
        ranges(s.trusted),
    ensures
        ranges(server::server_scan(s, ds, n, m).trusted),
    decreases n,
{
    if n > 0 {
        lemma_scan(s, ds, (n - 1) as nat, m);
        let s0 = server::server_scan(s, ds, (n - 1) as nat, m);
        let s1 = server::server_scan(s, ds, n, m);
        assert forall|i: int| 0 <= i < s1.trusted.len() implies units::cidr(
            #[trigger] s1.trusted[i],
        ) by {
            if i < s0.trusted.len() {
                assert(s1.trusted[i] == s0.trusted[i]);
            }
        }
    }
}

proof fn lemma_servers(w: WorldV, kept: Seq<KeptV>, n: nat, m: ModelV, pools: Seq<PoolV>)
    requires
        n <= kept.len(),
        good(w, pools),
        forall|i: int| 0 <= i < kept.len() ==> good_hosts((#[trigger] kept[i]).hosts),
    ensures
        good(super::map_servers(w, kept, n, m), pools),
    decreases n,
{
    if n > 0 {
        let k = (n - 1) as nat;
        lemma_servers(w, kept, k, m, pools);
        let w0 = super::map_servers(w, kept, k, m);
        let s = kept[k as int].server;
        let start = ScanV {
            ctx: server::empty_ctx(),
            trusted: w0.doc.trusted_proxies,
            sh: SharedV { cap: w0.doc.waf_body_mb, agg: w0.agg, notes: w0.notes },
        };
        let scan = server::server_scan(start, s.directives, s.directives.len(), m);
        lemma_scan(start, s.directives, s.directives.len(), m);
        let w1 = WorldV {
            doc: DocV { trusted_proxies: scan.trusted, waf_body_mb: scan.sh.cap, ..w0.doc },
            agg: scan.sh.agg,
            notes: scan.sh.notes,
            ..w0
        };
        lemma_locations(
            w1,
            s.locations,
            s.locations.len(),
            kept[k as int].hosts,
            scan.ctx,
            m,
            pools,
        );
    }
}

proof fn lemma_kept(ss: Seq<ServerV>, n: nat, notes: Seq<Note>)
    requires
        n <= ss.len(),
    ensures
        forall|i: int|
            0 <= i < servers::kept_of(ss, n, notes).0.len() ==> good_hosts(
                (#[trigger] servers::kept_of(ss, n, notes).0[i]).hosts,
            ),
    decreases n,
{
    if n > 0 {
        let k = (n - 1) as nat;
        lemma_kept(ss, k, notes);
        let (a, f) = servers::kept_of(ss, k, notes);
        let b = servers::kept_of(ss, n, notes).0;
        law_hostless_servers_are_catch_alls(ss[k as int], f);
        assert forall|i: int| 0 <= i < b.len() implies good_hosts((#[trigger] b[i]).hosts) by {
            if i < a.len() {
                assert(b[i] == a[i]);
            }
        }
    }
}

/// A pool of which every member is down or a socket.
pub open spec fn memberless(p: PoolV) -> bool {
    forall|i: int|
        0 <= i < p.servers.len() ==> text::starts((#[trigger] p.servers[i]).addr, "unix:"@)
            || p.servers[i].flags.contains("down"@)
}

proof fn lemma_members(p: PoolV, n: nat, scheme: Seq<char>, notes: Seq<Note>)
    requires
        n <= p.servers.len(),
    ensures
        upstream::members_of(p.servers, n, scheme, notes).0.len() == 0 ==> forall|i: int|
            0 <= i < n ==> text::starts((#[trigger] p.servers[i]).addr, "unix:"@)
                || p.servers[i].flags.contains("down"@),
    decreases n,
{
    if n > 0 {
        lemma_members(p, (n - 1) as nat, scheme, notes);
    }
}

spec fn has_upstream(us: Seq<UpstreamV>, name: Seq<char>) -> bool {
    exists|i: int| 0 <= i < us.len() && (#[trigger] us[i]).name == name
}

proof fn lemma_pools(reg: RegV, n: nat, notes: Seq<Note>)
    requires
        n <= reg.pools.len(),
    ensures
        forall|i: int|
            0 <= i < n && !memberless(#[trigger] reg.pools[i]) ==> has_upstream(
                upstream::pools_out(reg, n, notes).0,
                upstream::safe_name(reg.pools[i].name),
            ),
    decreases n,
{
    if n > 0 {
        let k = (n - 1) as nat;
        lemma_pools(reg, k, notes);
        let (a, f) = upstream::pools_out(reg, k, notes);
        let b = upstream::pools_out(reg, n, notes).0;
        let p = reg.pools[k as int];
        let i0 = upstream::use_index(reg.uses, p.name, 0);
        let used = i0 < reg.uses.len();
        let scheme = if used {
            reg.uses[i0 as int].scheme
        } else {
            "http"@
        };
        let n1 = if used {
            f
        } else {
            f.push(
                crate::import::note(
                    crate::import::Status::Auto,
                    p.line,
                    "upstream"@,
                    "pool '"@ + p.name + "' is not referenced by any converted route"@,
                ),
            )
        };
        lemma_members(p, p.servers.len(), scheme, n1);
        assert forall|i: int| 0 <= i < n && !memberless(#[trigger] reg.pools[i]) implies has_upstream(
            b,
            upstream::safe_name(reg.pools[i].name),
        ) by {
            if i < k {
                let j = choose|j: int|
                    0 <= j < a.len() && (#[trigger] a[j]).name == upstream::safe_name(
                        reg.pools[i].name,
                    );
                assert(b[j] == a[j]);
            } else {
                assert(b[a.len() as int].name == upstream::safe_name(p.name));
            }
        }
    }
}

/// In a converted document, every route serves files, or names an upstream of
/// the document, or a pool of which no member can be used; its hosts are exact
/// names or `*.` before one; and every trusted proxy is an address or a range.
pub proof fn law_converted_document_is_sound(m: ModelV, notes: Seq<Note>)
    ensures
        ({
            let doc = super::map_model_of(m, notes).0;
            &&& forall|i: int|
                0 <= i < doc.trusted_proxies.len() ==> units::cidr(
                    #[trigger] doc.trusted_proxies[i],
                )
            &&& forall|i: int|
                0 <= i < doc.routes.len() ==> ((#[trigger] doc.routes[i]).hosts matches Some(hs)
                    ==> route_hosts(hs))
            &&& forall|i: int|
                0 <= i < doc.routes.len() ==> (#[trigger] doc.routes[i]).serve_dir is Some || (
                exists|j: int|
                    0 <= j < doc.upstreams.len() && (#[trigger] doc.upstreams[j]).name
                        == doc.routes[i].upstream) || (exists|j: int|
                    0 <= j < m.pools.len() && memberless(#[trigger] m.pools[j])
                        && upstream::safe_name(m.pools[j].name) == doc.routes[i].upstream)
        }),
{
    let (kept, n1) = servers::kept_of(m.servers, m.servers.len(), notes);
    lemma_kept(m.servers, m.servers.len(), notes);
    let n2 = super::shared_notes(kept, kept.len(), n1);
    let n3 = super::met_servers(
        MetV { seen: seq![], flagged: seq![], notes: n2 },
        kept,
        kept.len(),
    ).notes;
    let n4 = super::plain_notes(kept, n3);
    let ports = listen::ports_of(kept, kept.len(), n4);
    let (doc0, n5) = tls::tls_doc(listen::listen_doc(super::empty_doc(), ports), kept, ports.notes);
    let w0 = WorldV {
        doc: doc0,
        reg: RegV { pools: m.pools, uses: seq![], synth: seq![] },
        agg: directives::empty_agg(),
        notes: n5,
    };
    lemma_servers(w0, kept, kept.len(), m, m.pools);
    let w = super::routed_of(m, notes);
    assert(good(w, m.pools));
    let doc = super::map_model_of(m, notes).0;
    assert(doc.routes == w.doc.routes);
    assert(doc.trusted_proxies == w.doc.trusted_proxies);
    let n6 = directives::limits_doc(w.doc, w.agg, m, w.notes).1;
    let pools = upstream::pools_out(w.reg, w.reg.pools.len(), n6).0;
    lemma_pools(w.reg, w.reg.pools.len(), n6);
    let synth = upstream::synth_out(w.reg);
    assert(doc.upstreams == pools + synth);
    assert forall|i: int| 0 <= i < doc.routes.len() implies (#[trigger] doc.routes[i]).serve_dir is Some
        || (exists|j: int|
        0 <= j < doc.upstreams.len() && (#[trigger] doc.upstreams[j]).name
            == doc.routes[i].upstream) || (exists|j: int|
        0 <= j < m.pools.len() && memberless(#[trigger] m.pools[j]) && upstream::safe_name(
            m.pools[j].name,
        ) == doc.routes[i].upstream) by {
        let r = w.doc.routes[i];
        assert(good_route(r, w.reg));
        if r.serve_dir is None {
            if exists|k: int|
                0 <= k < w.reg.synth.len() && (#[trigger] w.reg.synth[k]).name == r.upstream {
                let k = choose|k: int|
                    0 <= k < w.reg.synth.len() && (#[trigger] w.reg.synth[k]).name == r.upstream;
                assert(doc.upstreams[pools.len() + k] == synth[k]);
                assert(doc.upstreams[pools.len() + k].name == r.upstream);
            } else {
                let k = choose|k: int|
                    0 <= k < w.reg.pools.len() && upstream::safe_name(
                        (#[trigger] w.reg.pools[k]).name,
                    ) == r.upstream;
                if !memberless(m.pools[k]) {
                    assert(has_upstream(pools, r.upstream));
                    let j = choose|j: int|
                        0 <= j < pools.len() && (#[trigger] pools[j]).name == r.upstream;
                    assert(doc.upstreams[j] == pools[j]);
                }
            }
        }
    }
}

} // verus!
