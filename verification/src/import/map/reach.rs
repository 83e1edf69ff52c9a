//! Where the requests of an nginx location go.
use super::directives;
use super::directives::SetHeaderV;
use super::location;
use super::location::{CtxV, LocV, ProxyV, SharedV, WorldV};
use super::meaning;
use super::upstream;
use super::upstream::RegV;
use super::{RouteV, UpstreamV};
use crate::import::model;
use crate::import::model::{LocationV, ModelV, PoolServerV, PoolV};
use crate::import::nginx::Dir;
use crate::import::Note;
use crate::text;
use crate::words;
use vstd::prelude::*;

verus! {

// ── Targets ─────────────────────────────────────────────────────────────
/// The target of a `proxy_pass`: a scheme, and behind it a host, with or without
/// a port.
pub open spec fn plain_target(scheme: Seq<char>, authority: Seq<char>) -> bool {
    &&& scheme == "http"@ || scheme == "https"@
    &&& authority.len() > 0
    &&& !authority.contains('/')
    &&& !authority.contains('$')
    &&& !text::starts(authority, "unix:"@)
}

proof fn lemma_schemes(x: Seq<char>)
    ensures
        "http"@ + "://"@ == "http://"@,
        "https"@ + "://"@ == "https://"@,
        text::strip_prefix_of("https://"@ + x, "http://"@) is None,
        text::strip_prefix_of("http://"@ + x, "http://"@) == Some(x),
        text::strip_prefix_of("https://"@ + x, "https://"@) == Some(x),
        !("http://"@).contains('$'),
        !("https://"@).contains('$'),
{
    words::law_parts_of_a_text(x, "http://"@, x);
    words::law_parts_of_a_text(x, "https://"@, x);
    reveal_strlit("http");
    reveal_strlit("https");
    reveal_strlit("://");
    reveal_strlit("http://");
    reveal_strlit("https://");
    assert("http"@ + "://"@ =~= "http://"@);
    assert("https"@ + "://"@ =~= "https://"@);
    let s = "https://"@ + x;
    words::law_stripped_parts_join(s, "http://"@);
    assert(s[4] == 's');
    assert("http://"@[4] == ':');
}

/// A target is read as its scheme, its host and what stands behind the host.
pub proof fn law_target_is_read(scheme: Seq<char>, authority: Seq<char>, uri: Seq<char>)
    requires
        plain_target(scheme, authority),
        !uri.contains('$'),
        uri.len() > 0 ==> uri[0] == '/',
    ensures
        location::target_parts(scheme + "://"@ + authority + uri) == Some(
            (
                scheme,
                authority,
                if uri.len() == 0 {
                    None
                } else {
                    Some(uri)
                },
            ),
        ),
        !location::unix_target(scheme + "://"@ + authority + uri),
        !(scheme + "://"@ + authority + uri).contains('$'),
{
    let rest = authority + uri;
    lemma_schemes(rest);
    let front = scheme + "://"@;
    let url = scheme + "://"@ + authority + uri;
    assert(url =~= front + rest);
    text::lemma_index_of(rest, '/', 0);
    let i = text::index_of(rest, '/', 0);
    let n = authority.len() as int;
    if i < n {
        assert(authority[i] == rest[i]);
    }
    if uri.len() > 0 {
        assert(rest[n] == '/');
        assert(i == n);
        assert(rest.subrange(0, i) =~= authority);
        assert(rest.subrange(i, rest.len() as int) =~= uri);
    } else {
        assert(rest =~= authority);
    }
    words::law_stripped_parts_join(rest, "unix:"@);
    if text::starts(rest, "unix:"@) {
        reveal_strlit("unix:");
        let k = "unix:"@.len() as int;
        if n >= k {
            assert(authority.subrange(0, k) =~= rest.subrange(0, k));
        } else if uri.len() > 0 {
            assert(rest[n] == "unix:"@[n]);
        }
    }
    if url.contains('$') {
        let k = choose|k: int| 0 <= k < url.len() && url[k] == '$';
        let f = front.len() as int;
        if k < f {
            assert(front[k] == '$');
        } else if k < f + n {
            assert(authority[k - f] == '$');
        } else {
            assert(uri[k - f - n] == '$');
        }
    }
}

#[verifier::rlimit(60)]
#[verifier::spinoff_prover]
proof fn lemma_proxy_step(st: LocV, sh: SharedV, d: Dir, m: ModelV)
    ensures
        d.name != "proxy_pass"@ ==> location::loc_step(st, sh, d, m).0.proxy == st.proxy,
        d.name == "proxy_pass"@ ==> location::loc_step(st, sh, d, m).0.proxy
            == location::proxy_pass_step(st, sh, d).0.proxy,
{
}

proof fn lemma_proxy(
    st: LocV,
    sh: SharedV,
    ds: Seq<Dir>,
    n: nat,
    m: ModelV,
    j: int,
    scheme: Seq<char>,
    authority: Seq<char>,
    uri: Seq<char>,
)
    requires
        0 <= j < n <= ds.len(),
        ds[j].name == "proxy_pass"@,
        ds[j].args.len() > 0,
        ds[j].args[0] == scheme + "://"@ + authority + uri,
        plain_target(scheme, authority),
        !uri.contains('$'),
        uri.len() > 0 ==> uri[0] == '/',
        meaning::names_none(ds, j + 1, n as int, "proxy_pass"@),
    ensures
        location::loc_scan(st, sh, ds, n, m).0.proxy matches Some(p) && p.scheme == scheme
            && p.target == authority,
    decreases n,
{
    let k = (n - 1) as nat;
    let (st1, sh1) = location::loc_scan(st, sh, ds, k, m);
    lemma_proxy_step(st1, sh1, ds[k as int], m);
    if j < k {
        assert(ds[k as int].name != "proxy_pass"@);
        assert(meaning::names_none(ds, j + 1, k as int, "proxy_pass"@));
        lemma_proxy(st, sh, ds, k, m, j, scheme, authority, uri);
    } else {
        law_target_is_read(scheme, authority, uri);
    }
}

proof fn lemma_synth_index(reg: RegV, url: Seq<char>, i: nat)
    requires
        i <= reg.synth.len(),
    ensures
        ({
            let k = upstream::synth_index(reg.synth, url, i);
            i <= k <= reg.synth.len() && (k < reg.synth.len() ==> reg.synth[k as int].url == url)
        }),
    decreases reg.synth.len() - i,
{
    if i < reg.synth.len() && reg.synth[i as int].url != url {
        lemma_synth_index(reg, url, i + 1);
    }
}

/// The document's upstreams hold one of the name that is reached at the URL
/// alone.
pub open spec fn reached_at(us: Seq<UpstreamV>, name: Seq<char>, url: Seq<char>) -> bool {
    exists|k: int|
        0 <= k < us.len() && (#[trigger] us[k]).name == name && us[k].urls == seq![url]
}

/// A target that is no pool is an upstream of its own, at the scheme and the host
/// of the target.
pub proof fn law_resolved_target_is_reached(
    reg: RegV,
    scheme: Seq<char>,
    authority: Seq<char>,
    timeout: Option<u64>,
    line: int,
    notes: Seq<Note>,
    later: Seq<Note>,
)
    requires
        forall|i: int| 0 <= i < reg.pools.len() ==> (#[trigger] reg.pools[i]).name != authority,
    ensures
        ({
            let r = upstream::resolve_of(reg, scheme, authority, timeout, line, notes);
            reached_at(
                upstream::upstreams_of(r.reg, later).0,
                r.name,
                scheme + "://"@ + authority,
            )
        }),
{
    let url = scheme + "://"@ + authority;
    let r = upstream::resolve_of(reg, scheme, authority, timeout, line, notes);
    assert(!upstream::pool_named(reg.pools, authority));
    let i = upstream::synth_index(reg.synth, url, 0);
    lemma_synth_index(reg, url, 0);
    let k = if i >= reg.synth.len() {
        reg.synth.len() as int
    } else {
        i as int
    };
    assert(r.reg.synth[k].url == url && r.reg.synth[k].name == r.name);
    let pools = upstream::pools_out(r.reg, r.reg.pools.len(), later).0;
    let us = upstream::upstreams_of(r.reg, later).0;
    let x = us[pools.len() + k];
    assert(x == upstream::synth_out(r.reg)[k]);
    assert(x.urls =~= seq![url]);
}

/// The requests of a proxied location go to the target of its last `proxy_pass`:
/// the route names an upstream that is reached at the scheme and the host of the
/// target, where the host is no pool.
pub proof fn law_proxied_requests_reach_their_target(
    w: WorldV,
    loc: LocationV,
    hosts: Option<Seq<Seq<char>>>,
    ctx: CtxV,
    m: ModelV,
    r: RouteV,
    j: int,
    scheme: Seq<char>,
    authority: Seq<char>,
    uri: Seq<char>,
    later: Seq<Note>,
)
    requires
        meaning::adds(w, loc, hosts, ctx, m, r),
        0 <= j < loc.directives.len(),
        loc.directives[j].name == "proxy_pass"@,
        loc.directives[j].args.len() > 0,
        loc.directives[j].args[0] == scheme + "://"@ + authority + uri,
        plain_target(scheme, authority),
        !uri.contains('$'),
        uri.len() > 0 ==> uri[0] == '/',
        meaning::names_none(
            loc.directives,
            j + 1,
            loc.directives.len() as int,
            "proxy_pass"@,
        ),
        forall|i: int| 0 <= i < w.reg.pools.len() ==> (#[trigger] w.reg.pools[i]).name != authority,
    ensures
        r.serve_dir is None,
        r.hosts == hosts,
        reached_at(
            upstream::upstreams_of(
                location::location_step(w, loc, hosts, ctx, m).reg,
                later,
            ).0,
            r.upstream,
            scheme + "://"@ + authority,
        ),
{
    let ds = loc.directives;
    let sh0 = SharedV { cap: w.doc.waf_body_mb, agg: w.agg, notes: w.notes };
    let (st, sh) = location::loc_scan(location::empty_loc(ctx.waf), sh0, ds, ds.len(), m);
    lemma_proxy(
        location::empty_loc(ctx.waf),
        sh0,
        ds,
        ds.len(),
        m,
        j,
        scheme,
        authority,
        uri,
    );
    let p = st.proxy->0;
    let told = location::files_told(ds, ds.len(), sh.notes);
    let step = location::location_step(w, loc, hosts, ctx, m);
    let out = location::proxy_route(w.doc.routes, w.reg, loc, hosts, ctx, st, p, told);
    assert(step.doc.routes.last() == r);
    assert(step.doc.routes.len() == w.doc.routes.len() + 1);
    assert(out.route == Some(r));
    lemma_routed(w.doc.routes, w.reg, loc, hosts, ctx, st, p, told, r, later);
}

proof fn lemma_routed(
    routes: Seq<RouteV>,
    reg: RegV,
    loc: LocationV,
    hosts: Option<Seq<Seq<char>>>,
    ctx: CtxV,
    st: LocV,
    p: ProxyV,
    notes: Seq<Note>,
    r: RouteV,
    later: Seq<Note>,
)
    requires
        location::proxy_route(routes, reg, loc, hosts, ctx, st, p, notes).route == Some(r),
        forall|i: int| 0 <= i < reg.pools.len() ==> (#[trigger] reg.pools[i]).name != p.target,
    ensures
        r.serve_dir is None,
        r.hosts == hosts,
        reached_at(
            upstream::upstreams_of(
                location::proxy_route(routes, reg, loc, hosts, ctx, st, p, notes).reg,
                later,
            ).0,
            r.upstream,
            p.scheme + "://"@ + p.target,
        ),
{
    let (path, n1) = location::path_of(loc, notes);
    let inherited = if st.has_set_header {
        st.hdr_annotations
    } else {
        ctx.hdr_annotations
    };
    let (annotations, n2) = location::uri_part(p, loc, inherited, n1);
    let (csp, n3) = location::csp_of(st, ctx, loc, n2);
    let connect = if st.connect is Some {
        st.connect
    } else {
        ctx.connect_ms
    };
    law_resolved_target_is_reached(reg, p.scheme, p.target, connect, p.line, n3, later);
}

// ── Pools ───────────────────────────────────────────────────────────────
/// A member of a pool that can be reached: no socket, and not marked down.
pub open spec fn usable(d: Dir) -> bool {
    &&& d.name == "server"@
    &&& d.args.len() > 0
    &&& !text::starts(d.args[0], "unix:"@)
    &&& forall|i: int| 1 <= i < d.args.len() ==> #[trigger] d.args[i] != "down"@
}

/// How many of the first `n` members can be reached.
pub open spec fn members(block: Seq<Dir>, n: nat) -> nat
    decreases n,
{
    if n == 0 {
        0
    } else {
        members(block, (n - 1) as nat) + (if usable(block[n - 1]) {
            1nat
        } else {
            0nat
        })
    }
}

/// The URLs are those of the members that can be reached, in their order.
pub open spec fn urls_of_members(
    urls: Seq<Seq<char>>,
    block: Seq<Dir>,
    n: nat,
    scheme: Seq<char>,
) -> bool {
    &&& urls.len() == members(block, n)
    &&& forall|i: int|
        0 <= i < n && usable(#[trigger] block[i]) ==> members(block, i as nat) < urls.len()
            && urls[members(block, i as nat) as int] == scheme + "://"@ + block[i].args[0]
}

proof fn lemma_members_grow(block: Seq<Dir>, i: nat, n: nat)
    requires
        i <= n,
    ensures
        members(block, i) <= members(block, n),
        i < n && usable(block[i as int]) ==> members(block, i) < members(block, n),
    decreases n - i,
{
    if i < n {
        lemma_members_grow(block, i + 1, n);
        assert(members(block, i + 1) == members(block, i) + (if usable(block[i as int]) {
            1nat
        } else {
            0nat
        }));
    }
}

proof fn lemma_read_members(
    block: Seq<Dir>,
    n: nat,
    empty: PoolV,
    notes: Seq<Note>,
    scheme: Seq<char>,
    told: Seq<Note>,
)
    requires
        n <= block.len(),
        empty.servers.len() == 0,
    ensures
        ({
            let p = model::pool_members(block, n, empty, notes).0;
            &&& p.name == empty.name
            &&& urls_of_members(
                upstream::members_of(p.servers, p.servers.len(), scheme, told).0,
                block,
                n,
                scheme,
            )
        }),
    decreases n,
{
    if n > 0 {
        let k = (n - 1) as nat;
        lemma_read_members(block, k, empty, notes, scheme, told);
        let a = model::pool_members(block, k, empty, notes).0;
        let b = model::pool_members(block, n, empty, notes).0;
        let d = block[k as int];
        let ua = upstream::members_of(a.servers, a.servers.len(), scheme, told).0;
        let ub = upstream::members_of(b.servers, b.servers.len(), scheme, told).0;
        if d.name == "server"@ && d.args.len() > 0 {
            let s = b.servers.last();
            assert(b.servers.len() == a.servers.len() + 1);
            lemma_members_front(a.servers, s, scheme, told);
            assert(s.addr == d.args[0]);
            let tail = d.args.subrange(1, d.args.len() as int);
            assert(s.flags == tail);
            if s.flags.contains("down"@) {
                let i = choose|i: int| 0 <= i < tail.len() && tail[i] == "down"@;
                assert(d.args[i + 1] == "down"@);
            } else {
                assert forall|i: int| 1 <= i < d.args.len() implies #[trigger] d.args[i]
                    != "down"@ by {
                    assert(tail[i - 1] == d.args[i]);
                }
            }
            assert(usable(d) ==> ub == ua.push(scheme + "://"@ + s.addr));
            assert(!usable(d) ==> ub == ua);
        } else {
            assert(b.servers == a.servers);
        }
        assert forall|i: int| 0 <= i < n && usable(#[trigger] block[i]) implies members(
            block,
            i as nat,
        ) < ub.len() && ub[members(block, i as nat) as int] == scheme + "://"@
            + block[i].args[0] by {
            lemma_members_grow(block, i as nat, n);
            if i < k {
                assert(ua[members(block, i as nat) as int] == scheme + "://"@ + block[i].args[0]);
            }
        }
    } else {
        assert(empty.servers =~= seq![]);
    }
}

proof fn lemma_members_front(
    ss: Seq<PoolServerV>,
    s: PoolServerV,
    scheme: Seq<char>,
    told: Seq<Note>,
)
    ensures
        ({
            let (urls, f) = upstream::members_of(ss, ss.len(), scheme, told);
            upstream::members_of(ss.push(s), ss.len() + 1, scheme, told) == upstream::member_step(
                urls,
                f,
                s,
                scheme,
            )
        }),
{
    lemma_members_prefix(ss, s, ss.len(), scheme, told);
    assert(ss.push(s)[ss.len() as int] == s);
}

proof fn lemma_members_prefix(
    ss: Seq<PoolServerV>,
    s: PoolServerV,
    n: nat,
    scheme: Seq<char>,
    told: Seq<Note>,
)
    requires
        n <= ss.len(),
    ensures
        upstream::members_of(ss.push(s), n, scheme, told) == upstream::members_of(
            ss,
            n,
            scheme,
            told,
        ),
    decreases n,
{
    if n > 0 {
        lemma_members_prefix(ss, s, (n - 1) as nat, scheme, told);
        assert(ss.push(s)[n - 1] == ss[n - 1]);
    }
}

/// Every `server` of an `upstream` block that can be reached has its URL in the
/// upstream of the document, in the order of the block, and there are no others.
pub proof fn law_pool_reaches_its_members(
    d: Dir,
    e: model::Extracted,
    reg: RegV,
    out: Seq<UpstreamV>,
    notes: Seq<Note>,
)
    requires
        d.args.len() > 0,
        d.block is Some,
    ensures
        ({
            let pools = model::pool_of(e, d).model.pools;
            let p = pools.last();
            let us = upstream::pool_step(reg, p, out, notes).0;
            let scheme = if upstream::use_index(reg.uses, d.args[0], 0) < reg.uses.len() {
                reg.uses[upstream::use_index(reg.uses, d.args[0], 0) as int].scheme
            } else {
                "http"@
            };
            &&& pools.drop_last() == e.model.pools
            &&& p.name == d.args[0]
            &&& members(d.block->0, d.block->0.len()) == 0 ==> us == out
            &&& members(d.block->0, d.block->0.len()) > 0 ==> {
                &&& us.len() == out.len() + 1
                &&& us.drop_last() == out
                &&& us.last().name == upstream::safe_name(d.args[0])
                &&& urls_of_members(us.last().urls, d.block->0, d.block->0.len(), scheme)
            }
        }),
{
    let empty = PoolV {
        name: d.args[0],
        servers: seq![],
        keepalive: None,
        extras: seq![],
        line: d.line,
    };
    let block = d.block->0;
    let pools = model::pool_of(e, d).model.pools;
    assert(pools.drop_last() =~= e.model.pools);
    let p = pools.last();
    assert(p == model::pool_members(block, block.len(), empty, e.notes).0);
    lemma_read_members(block, block.len(), empty, e.notes, "http"@, notes);
    let i = upstream::use_index(reg.uses, p.name, 0);
    let used = i < reg.uses.len();
    let scheme = if used {
        reg.uses[i as int].scheme
    } else {
        "http"@
    };
    let n1 = if used {
        notes
    } else {
        notes.push(
            crate::import::note(
                crate::import::Status::Auto,
                p.line,
                "upstream"@,
                "pool '"@ + p.name + "' is not referenced by any converted route"@,
            ),
        )
    };
    lemma_read_members(block, block.len(), empty, e.notes, scheme, n1);
    let us = upstream::pool_step(reg, p, out, notes).0;
    if members(block, block.len()) > 0 {
        assert(us.drop_last() =~= out);
    }
}

// ── Headers ─────────────────────────────────────────────────────────────
/// A header of the name, in whatever case.
pub open spec fn names_header(d: Dir, lower: Seq<char>) -> bool {
    d.args.len() > 0 && text::lower(d.args[0]) == lower
}

/// Only setting `Upgrade` makes a route one for websockets, and nothing unmakes
/// it.
pub proof fn law_upgrade_makes_a_websocket(st: SetHeaderV, d: Dir)
    ensures
        directives::set_header_step(st, d).websocket == (st.websocket || names_header(
            d,
            "upgrade"@,
        )),
{
    reveal_strlit("upgrade");
    reveal_strlit("x-real-ip");
    reveal_strlit("x-forwarded-for");
    reveal_strlit("x-forwarded-proto");
    reveal_strlit("x-forwarded-host");
    reveal_strlit("");
    assert("upgrade"@.len() == 7);
    assert("x-real-ip"@.len() == 9);
    assert("x-forwarded-for"@.len() == 15);
    assert("x-forwarded-proto"@.len() == 17);
    assert("x-forwarded-host"@.len() == 16);
    if d.args.len() == 0 {
        assert(text::lower(""@).len() == 0);
    } else {
        assert(text::first_or_empty(d.args) == d.args[0]);
    }
}

/// Only `add_header Content-Security-Policy` sets the policy of a route, to its
/// value.
pub proof fn law_policy_is_the_header(csp: Option<Seq<char>>, notes: Seq<Note>, d: Dir)
    ensures
        directives::add_header_step(csp, notes, d).0 == (if names_header(
            d,
            "content-security-policy"@,
        ) && d.args.len() > 1 {
            Some(d.args[1])
        } else {
            csp
        }),
{
    reveal_strlit("");
    reveal_strlit("content-security-policy");
    if d.args.len() == 0 {
        assert(text::lower(""@).len() == 0);
    }
}


// ── Settings of upstreams ───────────────────────────────────────────────
proof fn lemma_use_index(reg: RegV, name: Seq<char>, i: nat)
    requires
        i <= reg.uses.len(),
    ensures
        ({
            let k = upstream::use_index(reg.uses, name, i);
            &&& i <= k <= reg.uses.len()
            &&& k < reg.uses.len() ==> reg.uses[k as int].name == name
            &&& forall|j: int| i <= j < k ==> (#[trigger] reg.uses[j]).name != name
        }),
    decreases reg.uses.len() - i,
{
    if i < reg.uses.len() && reg.uses[i as int].name != name {
        lemma_use_index(reg, name, i + 1);
    }
}

/// A pool is reached by the scheme of the first target that names it, within the
/// first timeout that one of them sets.
pub proof fn law_first_use_of_a_pool_counts(
    reg: RegV,
    scheme: Seq<char>,
    pool: Seq<char>,
    timeout: Option<u64>,
    line: int,
    notes: Seq<Note>,
)
    requires
        upstream::pool_named(reg.pools, pool),
    ensures
        ({
            let a = upstream::resolve_of(reg, scheme, pool, timeout, line, notes).reg;
            let i = upstream::use_index(reg.uses, pool, 0);
            let k = upstream::use_index(a.uses, pool, 0);
            &&& k < a.uses.len()
            &&& a.uses[k as int].name == pool
            &&& i >= reg.uses.len() ==> a.uses[k as int].scheme == scheme
                && a.uses[k as int].timeout == timeout
            &&& i < reg.uses.len() ==> a.uses[k as int].scheme == reg.uses[i as int].scheme
            &&& i < reg.uses.len() && reg.uses[i as int].timeout is Some
                ==> a.uses[k as int].timeout == reg.uses[i as int].timeout
            &&& i < reg.uses.len() && reg.uses[i as int].timeout is None
                ==> a.uses[k as int].timeout == timeout
            &&& a.synth == reg.synth
        }),
{
    let a = upstream::resolve_of(reg, scheme, pool, timeout, line, notes).reg;
    lemma_use_index(reg, pool, 0);
    lemma_use_index(a, pool, 0);
    let i = upstream::use_index(reg.uses, pool, 0);
    let k = upstream::use_index(a.uses, pool, 0);
    if i >= reg.uses.len() {
        assert(a.uses[reg.uses.len() as int].name == pool);
        if k < reg.uses.len() {
            assert(a.uses[k as int] == reg.uses[k as int]);
        }
    } else {
        assert(a.uses[i as int].name == pool);
        if k < i {
            assert(a.uses[k as int] == reg.uses[k as int]);
        }
    }
}

/// A single target is connected to within the first timeout that is set for it.
pub proof fn law_first_timeout_of_a_target_counts(
    reg: RegV,
    scheme: Seq<char>,
    authority: Seq<char>,
    timeout: Option<u64>,
    line: int,
    notes: Seq<Note>,
)
    requires
        !upstream::pool_named(reg.pools, authority),
    ensures
        ({
            let url = scheme + "://"@ + authority;
            let a = upstream::resolve_of(reg, scheme, authority, timeout, line, notes).reg;
            let i = upstream::synth_index(reg.synth, url, 0);
            &&& i >= reg.synth.len() ==> a.synth.last().url == url && a.synth.last().timeout
                == timeout && a.synth.drop_last() == reg.synth
            &&& i < reg.synth.len() && reg.synth[i as int].timeout is Some
                ==> a.synth[i as int].timeout == reg.synth[i as int].timeout
            &&& i < reg.synth.len() && reg.synth[i as int].timeout is None
                ==> a.synth[i as int].timeout == timeout
            &&& a.uses == reg.uses
        }),
{
    let url = scheme + "://"@ + authority;
    lemma_synth_index(reg, url, 0);
    let a = upstream::resolve_of(reg, scheme, authority, timeout, line, notes).reg;
    if upstream::synth_index(reg.synth, url, 0) >= reg.synth.len() {
        assert(a.synth.drop_last() =~= reg.synth);
    }
}

proof fn lemma_keepalive(block: Seq<Dir>, n: nat, pool: PoolV, notes: Seq<Note>, j: int, k: u64)
    requires
        0 <= j < n <= block.len(),
        block[j].name == "keepalive"@,
        block[j].args.len() > 0,
        block[j].args[0] == text::dec(k as nat),
        forall|i: int| j < i < n ==> (#[trigger] block[i]).name != "keepalive"@,
    ensures
        model::pool_members(block, n, pool, notes).0.keepalive == Some(k),
    decreases n,
{
    reveal_strlit("keepalive");
    reveal_strlit("server");
    assert("keepalive"@.len() == 9 && "server"@.len() == 6);
    let m = (n - 1) as nat;
    if j < m {
        lemma_keepalive(block, m, pool, notes, j, k);
        assert(block[m as int].name != "keepalive"@);
    } else {
        text::law_dec_round_trip(k as nat, u64::MAX as nat);
    }
}

/// A pool keeps as many connections as its last `keepalive` says, and the upstream
/// of the document says so too.
pub proof fn law_pool_keeps_its_connections(
    d: Dir,
    e: model::Extracted,
    reg: RegV,
    out: Seq<UpstreamV>,
    notes: Seq<Note>,
    j: int,
    k: u64,
)
    requires
        d.args.len() > 0,
        d.block is Some,
        0 <= j < d.block->0.len(),
        d.block->0[j].name == "keepalive"@,
        d.block->0[j].args.len() > 0,
        d.block->0[j].args[0] == text::dec(k as nat),
        forall|i: int| j < i < d.block->0.len() ==> (#[trigger] d.block->0[i]).name != "keepalive"@,
        members(d.block->0, d.block->0.len()) > 0,
    ensures
        upstream::pool_step(
            reg,
            model::pool_of(e, d).model.pools.last(),
            out,
            notes,
        ).0.last().keepalive == Some(k),
{
    let empty = PoolV {
        name: d.args[0],
        servers: seq![],
        keepalive: None,
        extras: seq![],
        line: d.line,
    };
    let block = d.block->0;
    let p = model::pool_of(e, d).model.pools.last();
    assert(p == model::pool_members(block, block.len(), empty, e.notes).0);
    lemma_keepalive(block, block.len(), empty, e.notes, j, k);
    law_pool_reaches_its_members(d, e, reg, out, notes);
}

} // verus!
