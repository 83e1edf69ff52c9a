//! Which requests the servers and locations of an nginx configuration take, and
//! what they are answered with beside the files and the backends.
use super::directives;
use super::directives::SetHeaderV;
use super::location;
use super::location::{CtxV, LocV, SharedV, WorldV};
use super::meaning;
use super::reach;
use super::servers;
use super::servers::{HostsV, NamesV};
use super::RouteV;
use crate::headers;
use crate::import::model;
use crate::import::model::{LocMod, LocationV, ModelV, ServerV};
use crate::import::nginx::Dir;
use crate::import::Note;
use crate::text;
use crate::words;
use vstd::prelude::*;

verus! {

// ── Hosts ───────────────────────────────────────────────────────────────
/// A name of a host: labels of small letters, digits and hyphens, with a dot
/// between each two.
pub open spec fn host_name(s: Seq<char>) -> bool {
    &&& s.len() > 0
    &&& s[0] != '.'
    &&& s.last() != '.'
    &&& forall|i: int|
        0 <= i < s.len() ==> 'a' <= #[trigger] s[i] <= 'z' || '0' <= s[i] <= '9' || s[i] == '-'
            || s[i] == '.'
    &&& forall|i: int| 0 <= i < s.len() - 1 && #[trigger] s[i] == '.' ==> s[i + 1] != '.'
}

proof fn lemma_host_name(s: Seq<char>)
    ensures
        host_name(s) <==> servers::bare_host(s),
{
    if host_name(s) {
        assert forall|i: int| 0 <= i < s.len() implies servers::host_char(#[trigger] s[i]) by {}
    }
    if servers::bare_host(s) {
        assert forall|i: int|
            0 <= i < s.len() implies 'a' <= #[trigger] s[i] <= 'z' || '0' <= s[i] <= '9' || s[i]
            == '-' || s[i] == '.' by {
            assert(servers::host_char(s[i]));
        }
    }
}

proof fn lemma_name_step(st: NamesV, raw: Seq<char>, line: int, d: Seq<char>)
    ensures
        ({
            let a = servers::name_step(st, raw, line).hosts;
            &&& st.hosts.len() <= a.len()
            &&& a.subrange(0, st.hosts.len() as int) == st.hosts
            &&& host_name(d) && text::lower(raw) == d ==> a == st.hosts.push(d)
            &&& host_name(d) && text::lower(raw) == "*."@ + d ==> a == st.hosts.push("*."@ + d)
            &&& host_name(d) && text::lower(raw) == "."@ + d ==> a == st.hosts.push(d).push(
                "*."@ + d,
            )
            &&& forall|i: int|
                st.hosts.len() <= i < a.len() ==> #[trigger] a[i] == text::lower(raw) || "."@ + a[i]
                    == text::lower(raw) || a[i] == "*"@ + text::lower(raw)
        }),
{
    let name = text::lower(raw);
    let a = servers::name_step(st, raw, line).hosts;
    reveal_strlit("_");
    reveal_strlit("*.");
    reveal_strlit("*");
    reveal_strlit(".");
    assert(st.hosts.subrange(0, st.hosts.len() as int) =~= st.hosts);
    assert(a.subrange(0, st.hosts.len() as int) =~= st.hosts);
    lemma_host_name(d);
    words::law_stripped_parts_join(name, "*."@);
    words::law_stripped_parts_join(name, "."@);
    words::law_parts_of_a_text(d, "*."@, d);
    words::law_parts_of_a_text(d, "."@, d);
    if host_name(d) && name == d {
        assert(name[0] != '*' && name[0] != '.' && name[0] != '_' && name[0] != '~');
    }
    match text::strip_prefix_of(name, "*."@) {
        Some(domain) => {},
        None => {
            match text::strip_prefix_of(name, "."@) {
                Some(domain) => {
                    assert("*."@ + domain =~= "*"@ + name);
                },
                None => {},
            }
        },
    }
}

proof fn lemma_dedup(s: Seq<Seq<char>>, n: nat, h: Seq<char>)
    requires
        n <= s.len(),
    ensures
        servers::dedup_n(s, n).contains(h) <==> exists|i: int| 0 <= i < n && #[trigger] s[i] == h,
        n > 0 ==> servers::dedup_n(s, n).len() > 0,
    decreases n,
{
    if n > 0 {
        let k = (n - 1) as nat;
        lemma_dedup(s, k, h);
        let p = servers::dedup_n(s, k);
        let a = servers::dedup_n(s, n);
        if n > 1 && s[n - 1] == s[n - 2] {
            if exists|i: int| 0 <= i < n && #[trigger] s[i] == h {
                let i = choose|i: int| 0 <= i < n && #[trigger] s[i] == h;
                if i == k {
                    assert(s[n - 2] == h);
                }
            }
        } else {
            assert(a == p.push(s[n - 1]));
            assert(a[p.len() as int] == s[n - 1]);
            if a.contains(h) {
                let i = choose|i: int| 0 <= i < a.len() && a[i] == h;
                if i < p.len() {
                    assert(p[i] == h);
                    assert(p.contains(h));
                }
            }
            if p.contains(h) {
                let i = choose|i: int| 0 <= i < p.len() && p[i] == h;
                assert(a[i] == h);
            }
        }
    }
}

/// The text is among the first `n`.
spec fn among(s: Seq<Seq<char>>, h: Seq<char>) -> bool {
    exists|i: int| 0 <= i < s.len() && #[trigger] s[i] == h
}

proof fn lemma_names(names: Seq<Seq<char>>, n: nat, line: int, notes: Seq<Note>, k: int, d: Seq<char>)
    requires
        n <= names.len(),
    ensures
        ({
            let a = servers::names_of(names, n, line, notes).hosts;
            &&& 0 <= k < n && host_name(d) && text::lower(names[k]) == d ==> among(a, d)
            &&& 0 <= k < n && host_name(d) && text::lower(names[k]) == "*."@ + d ==> among(
                a,
                "*."@ + d,
            )
            &&& 0 <= k < n && host_name(d) && text::lower(names[k]) == "."@ + d ==> among(a, d)
                && among(a, "*."@ + d)
            &&& forall|i: int|
                0 <= i < a.len() ==> exists|j: int|
                    0 <= j < n && comes_from(#[trigger] a[i], #[trigger] names[j])
        }),
    decreases n,
{
    if n > 0 {
        let m = (n - 1) as nat;
        lemma_names(names, m, line, notes, k, d);
        let st = servers::names_of(names, m, line, notes);
        let raw = names[m as int];
        let a = servers::name_step(st, raw, line).hosts;
        lemma_name_step(st, raw, line, d);
        assert forall|h: Seq<char>| among(st.hosts, h) implies among(a, h) by {
            let i = choose|i: int| 0 <= i < st.hosts.len() && #[trigger] st.hosts[i] == h;
            assert(a.subrange(0, st.hosts.len() as int)[i] == h);
            assert(a[i] == h);
        }
        if k == m && host_name(d) {
            if text::lower(raw) == d {
                assert(a[st.hosts.len() as int] == d);
            }
            if text::lower(raw) == "*."@ + d {
                assert(a[st.hosts.len() as int] == "*."@ + d);
            }
            if text::lower(raw) == "."@ + d {
                assert(a[st.hosts.len() as int] == d);
                assert(a[st.hosts.len() as int + 1] == "*."@ + d);
            }
        }
        assert forall|i: int| 0 <= i < a.len() implies exists|j: int|
            0 <= j < n && comes_from(#[trigger] a[i], #[trigger] names[j]) by {
            if i < st.hosts.len() {
                assert(a.subrange(0, st.hosts.len() as int)[i] == st.hosts[i]);
                let j = choose|j: int|
                    0 <= j < m && comes_from(st.hosts[i], #[trigger] names[j]);
                assert(comes_from(a[i], names[j]));
            } else {
                assert(comes_from(a[i], names[m as int]));
            }
        }
    }
}

/// The host is what the name says: the name itself in small letters, or, where
/// that begins with a dot, the domain behind the dot or the wildcard before it.
pub open spec fn comes_from(host: Seq<char>, name: Seq<char>) -> bool {
    host == text::lower(name) || "."@ + host == text::lower(name) || host == "*"@ + text::lower(name)
}

/// A server takes the hosts that it names: a name, a wildcard, or with a dot
/// before it both; and it takes no others.
pub proof fn law_server_takes_its_names(s: ServerV, notes: Seq<Note>, k: int, d: Seq<char>)
    requires
        0 <= k < s.names.len(),
        host_name(d),
    ensures
        text::lower(s.names[k]) == d ==> (servers::hosts_of(s, notes).0 matches HostsV::Hosts(hs)
            && hs.contains(d)),
        text::lower(s.names[k]) == "*."@ + d ==> (servers::hosts_of(s, notes).0 matches HostsV::Hosts(
            hs,
        ) && hs.contains("*."@ + d)),
        text::lower(s.names[k]) == "."@ + d ==> (servers::hosts_of(s, notes).0 matches HostsV::Hosts(
            hs,
        ) && hs.contains(d) && hs.contains("*."@ + d)),
        servers::hosts_of(s, notes).0 matches HostsV::Hosts(hs) ==> forall|h: Seq<char>|
            #[trigger] hs.contains(h) ==> exists|j: int|
                0 <= j < s.names.len() && comes_from(h, #[trigger] s.names[j]),
{
    let st = servers::names_of(s.names, s.names.len(), s.names_line, notes);
    let hs = servers::dedup_of(st.hosts);
    lemma_names(s.names, s.names.len(), s.names_line, notes, k, d);
    lemma_dedup(st.hosts, st.hosts.len(), d);
    lemma_dedup(st.hosts, st.hosts.len(), "*."@ + d);
    assert forall|h: Seq<char>| #[trigger] hs.contains(h) implies exists|j: int|
        0 <= j < s.names.len() && comes_from(h, #[trigger] s.names[j]) by {
        lemma_dedup(st.hosts, st.hosts.len(), h);
        let i = choose|i: int| 0 <= i < st.hosts.len() && #[trigger] st.hosts[i] == h;
        let j = choose|j: int|
            0 <= j < s.names.len() && comes_from(st.hosts[i], #[trigger] s.names[j]);
        assert(comes_from(h, s.names[j]));
    }
}

// ── Locations ───────────────────────────────────────────────────────────
/// `location PATTERN` is a prefix, `location = PATTERN` exact, `location ~
/// PATTERN` and `location ~* PATTERN` regular expressions, and `location ^~
/// PATTERN` a prefix that comes before those.
pub proof fn law_location_is_read(d: Dir, notes: Seq<Note>, pattern: Seq<char>)
    requires
        d.block is Some,
    ensures
        ({
            let l = model::location_of(d, notes).0;
            let is = |m: LocMod| l is Some && l->0.modifier == m && l->0.pattern == pattern;
            &&& d.args == seq![pattern] ==> is(LocMod::Prefix)
            &&& d.args == seq!["="@, pattern] ==> is(LocMod::Exact)
            &&& d.args == seq!["~"@, pattern] ==> is(LocMod::Regex)
            &&& d.args == seq!["~*"@, pattern] ==> is(LocMod::Regex)
            &&& d.args == seq!["^~"@, pattern] ==> is(LocMod::PrefixPriority)
        }),
{
    reveal_strlit("=");
    reveal_strlit("~");
    reveal_strlit("~*");
    reveal_strlit("^~");
    assert("="@[0] == '=');
    assert("~"@[0] == '~');
    assert("^~"@[0] == '^');
    assert("~*"@[0] == '~');
}

// ── What a location says of its answers ─────────────────────────────────
#[verifier::rlimit(100)]
#[verifier::spinoff_prover]
proof fn lemma_fields(st: LocV, sh: SharedV, d: Dir, m: ModelV)
    ensures
        ({
            let a = location::loc_step(st, sh, d, m).0;
            &&& a.has_add_header == (st.has_add_header || d.name == "add_header"@)
            &&& a.csp == (if d.name == "add_header"@ {
                directives::add_header_step(st.csp, sh.notes, d).0
            } else {
                st.csp
            })
            &&& a.has_set_header == (st.has_set_header || d.name == "proxy_set_header"@)
            &&& a.websocket == (if d.name == "proxy_set_header"@ {
                directives::set_header_step(
                    SetHeaderV {
                        websocket: st.websocket,
                        annotations: st.hdr_annotations,
                        notes: sh.notes,
                    },
                    d,
                ).websocket
            } else {
                st.websocket
            })
            &&& a.try_files == (if d.name == "try_files"@ {
                Some((d.args, d.line))
            } else {
                st.try_files
            })
        }),
{
    crate::import::honesty::lemma_names();
}

/// The directive sets the policy of its location.
pub open spec fn sets_policy(d: Dir) -> bool {
    d.name == "add_header"@ && d.args.len() > 1 && text::lower(d.args[0])
        == "content-security-policy"@
}

/// The directive asks for an upgrade of the connection.
pub open spec fn asks_for_upgrade(d: Dir) -> bool {
    d.name == "proxy_set_header"@ && d.args.len() > 0 && text::lower(d.args[0]) == "upgrade"@
}

proof fn lemma_scan(st: LocV, sh: SharedV, ds: Seq<Dir>, n: nat, m: ModelV, j: int)
    requires
        n <= ds.len(),
    ensures
        ({
            let a = location::loc_scan(st, sh, ds, n, m).0;
            &&& 0 <= j < n && sets_policy(ds[j]) && (forall|i: int|
                j < i < n ==> !sets_policy(#[trigger] ds[i])) ==> a.csp == Some(ds[j].args[1])
            &&& (forall|i: int| 0 <= i < n ==> !sets_policy(#[trigger] ds[i])) ==> a.csp == st.csp
            &&& a.has_add_header == (st.has_add_header || exists|i: int|
                0 <= i < n && (#[trigger] ds[i]).name == "add_header"@)
            &&& a.has_set_header == (st.has_set_header || exists|i: int|
                0 <= i < n && (#[trigger] ds[i]).name == "proxy_set_header"@)
            &&& a.websocket == (st.websocket || exists|i: int|
                0 <= i < n && asks_for_upgrade(#[trigger] ds[i]))
            &&& 0 <= j < n && ds[j].name == "try_files"@ && meaning::names_none(
                ds,
                j + 1,
                n as int,
                "try_files"@,
            ) ==> a.try_files == Some((ds[j].args, ds[j].line))
            &&& meaning::names_none(ds, 0, n as int, "try_files"@) ==> a.try_files == st.try_files
        }),
    decreases n,
{
    if n > 0 {
        let k = (n - 1) as nat;
        lemma_scan(st, sh, ds, k, m, j);
        let (st1, sh1) = location::loc_scan(st, sh, ds, k, m);
        let d = ds[k as int];
        lemma_fields(st1, sh1, d, m);
        let a = location::loc_scan(st, sh, ds, n, m).0;
        reach::law_policy_is_the_header(st1.csp, sh1.notes, d);
        reach::law_upgrade_makes_a_websocket(
            SetHeaderV {
                websocket: st1.websocket,
                annotations: st1.hdr_annotations,
                notes: sh1.notes,
            },
            d,
        );
        if a.has_add_header && !st.has_add_header {
            if st1.has_add_header {
                let i = choose|i: int| 0 <= i < k && (#[trigger] ds[i]).name == "add_header"@;
                assert(ds[i].name == "add_header"@);
            } else {
                assert(ds[k as int].name == "add_header"@);
            }
        }
        if a.has_set_header && !st.has_set_header {
            if st1.has_set_header {
                let i = choose|i: int| 0 <= i < k && (#[trigger] ds[i]).name == "proxy_set_header"@;
                assert(ds[i].name == "proxy_set_header"@);
            } else {
                assert(ds[k as int].name == "proxy_set_header"@);
            }
        }
        if a.websocket && !st.websocket {
            if st1.websocket {
                let i = choose|i: int| 0 <= i < k && asks_for_upgrade(#[trigger] ds[i]);
                assert(asks_for_upgrade(ds[i]));
            } else {
                assert(asks_for_upgrade(ds[k as int]));
            }
        }
        if 0 <= j < n && ds[j].name == "try_files"@ && meaning::names_none(
            ds,
            j + 1,
            n as int,
            "try_files"@,
        ) && j < k {
            assert(meaning::names_none(ds, j + 1, k as int, "try_files"@));
            assert(d.name != "try_files"@);
        }
        if meaning::names_none(ds, 0, n as int, "try_files"@) {
            assert(meaning::names_none(ds, 0, k as int, "try_files"@));
            assert(d.name != "try_files"@);
        }
    }
}

/// A route has the policy that its location sets last; one that sets no header at
/// all has that of its server.
pub proof fn law_route_has_the_policy(
    w: WorldV,
    loc: LocationV,
    hosts: Option<Seq<Seq<char>>>,
    ctx: CtxV,
    m: ModelV,
    r: RouteV,
    j: int,
)
    requires
        meaning::adds(w, loc, hosts, ctx, m, r),
    ensures
        0 <= j < loc.directives.len() && sets_policy(loc.directives[j]) && (forall|i: int|
            j < i < loc.directives.len() ==> !sets_policy(#[trigger] loc.directives[i]))
            && headers::header_text(loc.directives[j].args[1]) ==> r.csp == Some(
            loc.directives[j].args[1],
        ),
        meaning::names_none(loc.directives, 0, loc.directives.len() as int, "add_header"@) ==> r.csp
            is None || r.csp == ctx.csp,
        meaning::names_none(loc.directives, 0, loc.directives.len() as int, "add_header"@)
            && ctx.csp is Some && headers::header_text(ctx.csp->0) ==> r.csp == ctx.csp,
{
    let ds = loc.directives;
    let st0 = location::empty_loc(ctx.waf);
    let sh0 = SharedV { cap: w.doc.waf_body_mb, agg: w.agg, notes: w.notes };
    let (st, sh) = location::loc_scan(st0, sh0, ds, ds.len(), m);
    lemma_scan(st0, sh0, ds, ds.len(), m, j);
    let routes = location::location_step(w, loc, hosts, ctx, m).doc.routes;
    assert(routes.last() == r);
    if meaning::names_none(ds, 0, ds.len() as int, "add_header"@) {
        assert(!st.has_add_header);
    }
    if 0 <= j < ds.len() && sets_policy(ds[j]) {
        assert(ds[j].name == "add_header"@);
    }
    lemma_route_csp(w, loc, hosts, ctx, m, r, st, sh);
}

proof fn lemma_route_csp(
    w: WorldV,
    loc: LocationV,
    hosts: Option<Seq<Seq<char>>>,
    ctx: CtxV,
    m: ModelV,
    r: RouteV,
    st: LocV,
    sh: SharedV,
)
    requires
        meaning::adds(w, loc, hosts, ctx, m, r),
        (st, sh) == location::loc_scan(
            location::empty_loc(ctx.waf),
            SharedV { cap: w.doc.waf_body_mb, agg: w.agg, notes: w.notes },
            loc.directives,
            loc.directives.len(),
            m,
        ),
    ensures
        ({
            let csp = if st.has_add_header {
                st.csp
            } else {
                ctx.csp
            };
            r.csp == (match csp {
                Some(v) if !headers::header_text(v) => None,
                _ => csp,
            })
        }),
        r.serve_dir is None ==> r.websocket == (if st.has_set_header {
            st.websocket
        } else {
            ctx.websocket
        }),
        r.serve_dir is Some ==> r.spa_fallback == (match st.try_files {
            Some((args, _)) => location::try_files_of(args).0,
            None => false,
        }) && !r.websocket,
{
    let routes = location::location_step(w, loc, hosts, ctx, m).doc.routes;
    assert(routes.last() == r);
    assert(routes.len() == w.doc.routes.len() + 1);
}

/// A proxied route is one for websockets where its location asks for an upgrade;
/// one that sets no header at all does as its server does.
pub proof fn law_route_is_for_websockets(
    w: WorldV,
    loc: LocationV,
    hosts: Option<Seq<Seq<char>>>,
    ctx: CtxV,
    m: ModelV,
    r: RouteV,
)
    requires
        meaning::adds(w, loc, hosts, ctx, m, r),
        r.serve_dir is None,
    ensures
        r.websocket <==> (if meaning::names_none(
            loc.directives,
            0,
            loc.directives.len() as int,
            "proxy_set_header"@,
        ) {
            ctx.websocket
        } else {
            exists|i: int| 0 <= i < loc.directives.len() && asks_for_upgrade(
                #[trigger] loc.directives[i],
            )
        }),
{
    let ds = loc.directives;
    let st0 = location::empty_loc(ctx.waf);
    let sh0 = SharedV { cap: w.doc.waf_body_mb, agg: w.agg, notes: w.notes };
    let (st, sh) = location::loc_scan(st0, sh0, ds, ds.len(), m);
    lemma_scan(st0, sh0, ds, ds.len(), m, 0);
    lemma_route_csp(w, loc, hosts, ctx, m, r, st, sh);
}

/// A static route falls back to the index page where the last word of its last
/// `try_files` is neither a status nor a named location.
pub proof fn law_route_falls_back_to_the_index(
    w: WorldV,
    loc: LocationV,
    hosts: Option<Seq<Seq<char>>>,
    ctx: CtxV,
    m: ModelV,
    r: RouteV,
    j: int,
)
    requires
        meaning::adds(w, loc, hosts, ctx, m, r),
        r.serve_dir is Some,
    ensures
        meaning::names_none(loc.directives, 0, loc.directives.len() as int, "try_files"@)
            ==> !r.spa_fallback,
        0 <= j < loc.directives.len() && loc.directives[j].name == "try_files"@
            && meaning::names_none(
            loc.directives,
            j + 1,
            loc.directives.len() as int,
            "try_files"@,
        ) ==> (r.spa_fallback <==> loc.directives[j].args.len() > 0 && !({
            let last = loc.directives[j].args.last();
            last.len() > 0 && (last[0] == '=' || last[0] == '@')
        })),
{
    let ds = loc.directives;
    let st0 = location::empty_loc(ctx.waf);
    let sh0 = SharedV { cap: w.doc.waf_body_mb, agg: w.agg, notes: w.notes };
    let (st, sh) = location::loc_scan(st0, sh0, ds, ds.len(), m);
    lemma_scan(st0, sh0, ds, ds.len(), m, j);
    lemma_route_csp(w, loc, hosts, ctx, m, r, st, sh);
}

// ── Server blocks ───────────────────────────────────────────────────────
/// Words of a directive behind the first, among them this one.
pub open spec fn flagged(d: Dir, n: nat, word: Seq<char>) -> bool {
    exists|q: int| 1 <= q < n && #[trigger] d.args[q] == word
}

proof fn lemma_listen(d: Dir, n: nat)
    requires
        1 <= n <= d.args.len(),
    ensures
        model::listen_of(d, n).addr == d.args[0],
        model::listen_of(d, n).ssl == flagged(d, n, "ssl"@),
        model::listen_of(d, n).default_server == (flagged(d, n, "default_server"@) || flagged(
            d,
            n,
            "default"@,
        )),
    decreases n,
{
    reveal_strlit("ssl");
    reveal_strlit("default");
    reveal_strlit("default_server");
    assert("ssl"@.len() == 3 && "default"@.len() == 7 && "default_server"@.len() == 14);
    if n > 1 {
        let k = (n - 1) as nat;
        lemma_listen(d, k);
        lemma_flagged(d, n, "ssl"@);
        lemma_flagged(d, n, "default"@);
        lemma_flagged(d, n, "default_server"@);
    }
}

proof fn lemma_flagged(d: Dir, n: nat, word: Seq<char>)
    requires
        1 < n <= d.args.len(),
    ensures
        flagged(d, n, word) <==> flagged(d, (n - 1) as nat, word) || d.args[n - 1] == word,
{
    if flagged(d, n, word) {
        let q = choose|q: int| 1 <= q < n && #[trigger] d.args[q] == word;
        if q < n - 1 {
            assert(flagged(d, (n - 1) as nat, word));
        }
    }
    if flagged(d, (n - 1) as nat, word) {
        let q = choose|q: int| 1 <= q < n - 1 && #[trigger] d.args[q] == word;
        assert(d.args[q] == word);
    }
    if d.args[n - 1] == word {
        assert(1 <= n - 1 < n);
    }
}

/// One list begins with the other.
spec fn begins_with<A>(b: Seq<A>, a: Seq<A>) -> bool {
    a.len() <= b.len() && forall|i: int| 0 <= i < a.len() ==> #[trigger] b[i] == a[i]
}

proof fn lemma_server_grows(block: Seq<Dir>, k: nat, n: nat, line: int, notes: Seq<Note>)
    requires
        k <= n <= block.len(),
    ensures
        ({
            let a = model::server_of(block, k, line, notes).0;
            let b = model::server_of(block, n, line, notes).0;
            &&& begins_with(b.names, a.names)
            &&& begins_with(b.listens, a.listens)
            &&& begins_with(b.directives, a.directives)
            &&& begins_with(b.locations, a.locations)
        }),
    decreases n - k,
{
    if k < n {
        lemma_server_grows(block, k, (n - 1) as nat, line, notes);
    }
}

/// A server block has the names of each `server_name`, a listener for each
/// `listen` at its address, with TLS where it says `ssl`, the location that each
/// `location` defines, and every other directive as its own.
pub proof fn law_server_block_is_read(
    block: Seq<Dir>,
    line: int,
    notes: Seq<Note>,
    j: int,
    k: int,
)
    requires
        0 <= j < block.len(),
    ensures
        ({
            let s = model::server_of(block, block.len(), line, notes).0;
            let d = block[j];
            &&& d.name == "server_name"@ && 0 <= k < d.args.len() ==> s.names.contains(d.args[k])
            &&& d.name == "listen"@ && d.args.len() > 0 ==> exists|i: int|
                0 <= i < s.listens.len() && (#[trigger] s.listens[i]).addr == d.args[0]
                    && s.listens[i].ssl == flagged(d, d.args.len(), "ssl"@) && s.listens[i].line
                    == d.line
            &&& d.name == "location"@ && (d.block is Some && d.args.len() == 1) ==> exists|i: int|
                0 <= i < s.locations.len() && (#[trigger] s.locations[i]).pattern == d.args[0]
                    && s.locations[i].modifier == LocMod::Prefix && s.locations[i].line == d.line
            &&& d.name != "listen"@ && d.name != "server_name"@ && d.name != "location"@
                ==> s.directives.contains(d)
        }),
{
    reveal_strlit("listen");
    reveal_strlit("server_name");
    reveal_strlit("location");
    assert("listen"@.len() == 6 && "server_name"@.len() == 11 && "location"@.len() == 8);
    let d = block[j];
    let p = model::server_of(block, j as nat, line, notes).0;
    let a = model::server_of(block, (j + 1) as nat, line, notes).0;
    let s = model::server_of(block, block.len(), line, notes).0;
    lemma_server_grows(block, (j + 1) as nat, block.len(), line, notes);
    if d.name == "server_name"@ && 0 <= k < d.args.len() {
        assert(a.names[p.names.len() + k] == d.args[k]);
        assert(s.names[p.names.len() + k] == d.args[k]);
    }
    if d.name == "listen"@ && d.args.len() > 0 {
        lemma_listen(d, d.args.len());
        let i = p.listens.len() as int;
        assert(a.listens[i] == model::listen_of(d, d.args.len()));
        assert(s.listens[i] == a.listens[i]);
        lemma_listen_line(d, d.args.len());
    }
    if d.name == "location"@ && d.block is Some && d.args.len() == 1 {
        let i = p.locations.len() as int;
        assert(s.locations[i] == a.locations[i]);
    }
    if d.name != "listen"@ && d.name != "server_name"@ && d.name != "location"@ {
        let i = p.directives.len() as int;
        assert(a.directives[i] == d);
        assert(s.directives[i] == d);
    }
}

proof fn lemma_listen_line(d: Dir, n: nat)
    requires
        1 <= n <= d.args.len(),
    ensures
        model::listen_of(d, n).line == d.line,
    decreases n,
{
    if n > 1 {
        lemma_listen_line(d, (n - 1) as nat);
    }
}

} // verus!
